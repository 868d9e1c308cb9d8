//! The typed program shape handed over by the type checker.
//!
//! Lexing, parsing and type checking happen upstream; the circuit writer
//! consumes their result as read-only data.  Only what the writer actually
//! reads is modelled here: argument attributes, argument and return types,
//! and the body's returned expression.

use vstd::prelude::*;

use crate::field::FIELD_MODULUS;

verus! {

/// A region of the program text, carried on errors for diagnostics.
#[derive(Clone, Copy, PartialEq, Eq, Structural, Debug)]
pub struct Span {
    pub start: usize,
    pub len: usize,
}

impl Span {
    pub fn new(start: usize, len: usize) -> (s: Span)
        ensures
            s.start == start,
            s.len == len,
    {
        Span { start, len }
    }

    pub fn zero() -> (s: Span)
        ensures
            s.start == 0,
            s.len == 0,
    {
        Span { start: 0, len: 0 }
    }
}

/// The shape of a type, as far as input allocation needs to know it:
/// scalars take one field element, arrays of field elements take their
/// length, and any other composite type carries its flattened size.
#[derive(Clone, Copy, PartialEq, Eq, Structural, Debug)]
pub enum TyKind {
    Field,
    Bool,
    /// A fixed-size array of field elements.
    FieldArray(usize),
    /// Any other composite type, with its flattened field-element size.
    Custom(usize),
}

impl TyKind {
    /// Number of field elements a value of this type occupies.
    pub open spec fn spec_size_of(self) -> nat {
        match self {
            TyKind::Field => 1,
            TyKind::Bool => 1,
            TyKind::FieldArray(n) => n as nat,
            TyKind::Custom(n) => n as nat,
        }
    }

    /// Computes the field-element width of this type.
    pub fn size_of(&self) -> (n: usize)
        ensures
            n == self.spec_size_of(),
    {
        match self {
            TyKind::Field => 1,
            TyKind::Bool => 1,
            TyKind::FieldArray(n) => *n,
            TyKind::Custom(n) => *n,
        }
    }
}

/// A type together with the span where it was written.
#[derive(Clone, Copy, PartialEq, Eq, Structural, Debug)]
pub struct Ty {
    pub kind: TyKind,
    pub span: Span,
}

/// The only legal attribute on a main-function argument is the public marker.
#[derive(Clone, Copy, PartialEq, Eq, Structural, Debug)]
pub enum AttributeKind {
    Pub,
    Unknown,
}

#[derive(Clone, Copy, PartialEq, Eq, Structural, Debug)]
pub struct Attribute {
    pub kind: AttributeKind,
    pub span: Span,
}

/// One argument of the entry function.
#[derive(Clone, Copy, PartialEq, Eq, Structural, Debug)]
pub struct FnArg {
    pub attribute: Option<Attribute>,
    pub typ: Ty,
    pub span: Span,
}

impl FnArg {
    /// An argument is public exactly when it carries an attribute
    /// (whose kind must then be the public marker).
    pub open spec fn is_public(self) -> bool {
        self.attribute is Some
    }
}

/// The expression returned by the entry function's body.  Expression and
/// statement compilation at large is upstream work; the circuit writer only
/// ever receives the returned field expression in this reduced form.
pub enum Expr {
    /// The value of the entry function's argument at this position.
    Arg(usize),
    /// A compile-time field constant.
    Const(u64),
    /// Field addition of two subexpressions.
    Add(Box<Expr>, Box<Expr>),
}

/// The signature of the entry function.
pub struct FnSig {
    pub arguments: Vec<FnArg>,
    pub return_type: Option<Ty>,
}

/// The entry function: its signature, the expression its body returns
/// (if it returns one), and its source span.
pub struct Function {
    pub sig: FnSig,
    pub body: Option<Expr>,
    pub span: Span,
}

/// Everything the type checker hands to the circuit writer: the module's
/// compile-time field constants and its entry function, if one was declared.
pub struct TypedModule {
    pub constants: Vec<u64>,
    pub main: Option<Function>,
}

/// Whether an expression is well typed against the argument list: every
/// argument reference is in range, names a single-field-element argument,
/// and every literal is a reduced field element.  The upstream type checker
/// guarantees this of the programs it hands over.
pub open spec fn expr_wf(e: Expr, args: Seq<FnArg>) -> bool
    decreases e,
{
    match e {
        Expr::Arg(i) => i < args.len() && args[i as int].typ.kind.spec_size_of() == 1,
        Expr::Const(c) => c < FIELD_MODULUS,
        Expr::Add(a, b) => expr_wf(*a, args) && expr_wf(*b, args),
    }
}

/// Whether argument `i` stands as a direct operand of some addition in `e`.
/// Exactly these arguments are placed in a constraint row by body
/// compilation.
pub open spec fn arg_in_gate(e: Expr, i: int) -> bool
    decreases e,
{
    match e {
        Expr::Arg(_) => false,
        Expr::Const(_) => false,
        Expr::Add(a, b) => (*a matches Expr::Arg(j) && j == i) || (*b matches Expr::Arg(j) && j
            == i) || arg_in_gate(*a, i) || arg_in_gate(*b, i),
    }
}

/// Whether the module is well typed: all constants are reduced field
/// elements and the body expression, if any, is well typed against the
/// entry function's arguments.
pub open spec fn module_wf(m: TypedModule) -> bool {
    &&& forall|j: int| 0 <= j < m.constants@.len() ==> m.constants@[j] < FIELD_MODULUS
    &&& match m.main {
        Some(f) => match f.body {
            Some(e) => expr_wf(e, f.sig.arguments@),
            None => true,
        },
        None => true,
    }
}

} // verus!
