//! Symbolic cell variables and the value graph.

use vstd::prelude::*;

use crate::ast::Span;
use crate::field::FIELD_MODULUS;

verus! {

/// A globally unique identifier for one field-element-valued wire of the
/// circuit.  Identities are never destroyed or reused once created.
#[derive(Clone, Copy, PartialEq, Eq, Structural, Debug)]
pub struct CellVar {
    pub index: usize,
    pub span: Span,
}

/// One element of a logical value: either a compile-time field constant or a
/// reference to a cell variable.
#[derive(Clone, Copy, PartialEq, Eq, Structural, Debug)]
pub enum ConstOrCell {
    Const(u64),
    Cell(CellVar),
}

/// A possibly multi-element logical value (a field, an array, a flattened
/// struct).  Its length is fixed at creation and never mutated.
#[derive(Debug)]
pub struct Var {
    pub cvars: Vec<ConstOrCell>,
    pub span: Span,
}

impl Var {
    pub fn new(cvars: Vec<ConstOrCell>, span: Span) -> (v: Var)
        ensures
            v.cvars@ == cvars@,
            v.span == span,
    {
        Var { cvars, span }
    }

    pub fn len(&self) -> (n: usize)
        ensures
            n == self.cvars@.len(),
    {
        self.cvars.len()
    }
}

/// The recipe for computing one cell variable's concrete field element
/// during witness generation.  Recipes form a directed graph over cell
/// variables; it is recorded at allocation time and replayed later.
#[derive(Debug)]
pub enum Value {
    /// A compile-time constant.
    Constant(u64),
    /// Read from the given public input slot.
    PublicInput(usize),
    /// Read from the given private input slot.
    PrivateInput(usize),
    /// The public output: its defining cell variable is known only once the
    /// body's return statement has been compiled, and its resolution is
    /// deferred to the very end of witness generation.
    PublicOutput(Option<CellVar>),
    /// A linear combination `sum(coeff_i * var_i) + constant` of already
    /// allocated cell variables: the closed form the writer's hints take.
    LinearCombination(Vec<(u64, CellVar)>, u64),
}

impl Value {
    pub open spec fn is_output(self) -> bool {
        self is PublicOutput
    }
}

/// Whether the value stored for cell variable `i` is well formed: all its
/// constants are reduced, and every cell variable it references was
/// allocated strictly earlier and does not itself hold a deferred output.
/// The one exception is the output recipe itself, whose defining variable is
/// recorded later and may therefore have a larger id.
pub open spec fn value_wf(vals: Seq<Value>, i: int) -> bool {
    match vals[i] {
        Value::Constant(c) => c < FIELD_MODULUS,
        Value::PublicInput(_) => true,
        Value::PrivateInput(_) => true,
        Value::PublicOutput(target) => match target {
            Some(cv) => cv.index < vals.len() && !vals[cv.index as int].is_output(),
            None => true,
        },
        Value::LinearCombination(terms, k) => {
            &&& k < FIELD_MODULUS
            &&& forall|j: int|
                0 <= j < terms@.len() ==> (#[trigger] terms@[j]).0 < FIELD_MODULUS
                    && terms@[j].1.index < i && !vals[terms@[j].1.index as int].is_output()
        },
    }
}

} // verus!
