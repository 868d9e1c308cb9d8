//! Constraint rows, the wiring accumulator, and the pending-gate packer.

use vstd::prelude::*;

use crate::ast::Span;
use crate::field::FIELD_MODULUS;
use crate::var::{value_wf, CellVar, ConstOrCell, Value, Var};

verus! {

/// Width of one constraint row: the number of wire registers per gate.
pub const NUM_REGISTERS: usize = 15;

/// Number of wire registers one logical generic gate occupies.
pub const GENERIC_REGISTERS: usize = 3;

/// Number of coefficients one logical generic gate carries.
pub const GENERIC_COEFFS: usize = 5;

/// The kind tag of a constraint row.
#[derive(Clone, Copy, PartialEq, Eq, Structural, Debug)]
pub enum GateKind {
    /// One physical row encoding up to two logical generic gates.
    DoubleGeneric,
}

/// One row of the constraint system: a kind tag and the field coefficients
/// parameterizing the row's constraint polynomial.  The wire back-references
/// are produced separately from the wiring at finalization.
#[derive(Debug)]
pub struct Gate {
    pub typ: GateKind,
    pub coeffs: Vec<u64>,
    pub span: Span,
}

/// A (row, column) position in the constraint table.
#[derive(Clone, Copy, PartialEq, Eq, Structural, Debug)]
pub struct Cell {
    pub row: usize,
    pub col: usize,
}

/// A cell position plus a debug label, used purely for diagnostics.
#[derive(Clone, Copy, Debug)]
pub struct AnnotatedCell {
    pub cell: Cell,
    pub debug: &'static str,
}

/// At most one half-built double-generic gate awaiting a second logical
/// gate to pack into the same physical row.
#[derive(Debug)]
pub struct PendingGate {
    pub label: &'static str,
    pub coeffs: Vec<u64>,
    pub vars: Vec<Option<CellVar>>,
    pub span: Span,
}

/// Whether cell variable `i` occupies some slot of the given row.
pub open spec fn row_has(row: Seq<Option<CellVar>>, i: int) -> bool {
    exists|c: int|
        0 <= c < row.len() && match #[trigger] row[c] {
            Some(cv) => cv.index == i,
            None => false,
        }
}

/// Strict row-major order on cell positions.
pub open spec fn cell_lt(a: Cell, b: Cell) -> bool {
    a.row < b.row || (a.row == b.row && a.col < b.col)
}

/// What submitting one logical generic gate with the given wire slots and
/// coefficients does to a session: with the packing optimization off it
/// takes a physical double-generic row of its own; with it on, a first
/// logical gate is buffered whole, and a second is merged into one physical
/// row, each logical gate keeping its own padded half.
pub open spec fn generic_gate_submitted(
    pre: CircuitWriter,
    post: CircuitWriter,
    vars: Seq<Option<CellVar>>,
    coeffs: Seq<u64>,
) -> bool {
    if !pre.double_generic_gate_optimization {
        &&& post.gates@.len() == pre.gates@.len() + 1
        &&& post.rows_of_vars@[pre.rows_of_vars@.len() as int]@ == vars
        &&& post.gates@[pre.gates@.len() as int].coeffs@ == coeffs
        &&& post.gates@[pre.gates@.len() as int].typ == GateKind::DoubleGeneric
        &&& post.pending_generic_gate == pre.pending_generic_gate
    } else if pre.pending_generic_gate is None {
        &&& post.gates@ == pre.gates@
        &&& post.rows_of_vars@ == pre.rows_of_vars@
        &&& match post.pending_generic_gate {
            Some(p) => p.vars@ == vars && p.coeffs@ == coeffs,
            None => false,
        }
    } else {
        let p = pre.pending_generic_gate->Some_0;
        &&& post.gates@.len() == pre.gates@.len() + 1
        &&& post.rows_of_vars@[pre.rows_of_vars@.len() as int]@ == CircuitWriter::pad_vars(p.vars@)
            + CircuitWriter::pad_vars(vars)
        &&& post.gates@[pre.gates@.len() as int].coeffs@ == CircuitWriter::pad_coeffs(p.coeffs@)
            + CircuitWriter::pad_coeffs(coeffs)
        &&& post.gates@[pre.gates@.len() as int].typ == GateKind::DoubleGeneric
        &&& post.pending_generic_gate is None
    }
}

/// The compilation session: allocates cell variables, emits constraint rows,
/// accumulates wiring, and owns the value graph until finalization.
#[derive(Debug)]
pub struct CircuitWriter {
    /// How to compute the value of each cell variable during witness
    /// generation: the value graph, as an arena indexed by variable id.
    pub witness_vars: Vec<Value>,
    /// The execution trace table with variables as placeholders: one entry
    /// per gate row, mapping each wire slot to the variable occupying it.
    pub rows_of_vars: Vec<Vec<Option<CellVar>>>,
    /// The constraint rows created so far.
    pub gates: Vec<Gate>,
    /// Per cell variable, the ordered positions it occupies in the
    /// constraint table: an empty list means it stands in no row yet, one
    /// entry means it stands alone, and two or more form a wired class.
    pub wiring: Vec<Vec<AnnotatedCell>>,
    /// Size of the public input section (declared public inputs followed by
    /// public outputs).
    pub public_input_size: usize,
    /// Once set, holds the variable reserved for the public output.
    pub public_output: Option<Var>,
    /// Ids allocated to private inputs, used at finalization to tell a
    /// user-facing unused-input error from an internal inconsistency.
    pub private_input_indices: Vec<usize>,
    /// If false, every logical generic gate gets its own physical row.
    pub double_generic_gate_optimization: bool,
    /// The buffered half of a double-generic row, if one is outstanding.
    pub pending_generic_gate: Option<PendingGate>,
    /// Cache from a constant to the variable already constrained to it.
    pub cached_constants: Vec<(u64, CellVar)>,
    /// Set at the very end of compilation; witness generation needs it.
    pub finalized: bool,
}

impl CircuitWriter {
    /// Number of cell variables allocated so far.
    pub open spec fn num_vars(self) -> int {
        self.witness_vars@.len() as int
    }

    /// Whether variable `i` occupies some wire slot of some row.
    pub open spec fn occurs_in_rows(self, i: int) -> bool {
        exists|r: int|
            0 <= r < self.rows_of_vars@.len() && row_has(#[trigger] self.rows_of_vars@[r]@, i)
    }

    /// Whether variable `i` sits in the buffered pending gate.
    pub open spec fn pending_contains(self, i: int) -> bool {
        match self.pending_generic_gate {
            Some(p) => exists|j: int|
                0 <= j < p.vars@.len() && match #[trigger] p.vars@[j] {
                    Some(cv) => cv.index == i,
                    None => false,
                },
            None => false,
        }
    }

    /// Whether variable `i` already stands in a row or waits in the pending
    /// gate: once settled, a variable can no longer be reported dangling.
    pub open spec fn settled(self, i: int) -> bool {
        self.occurs_in_rows(i) || self.pending_contains(i)
    }

    /// Whether id `i` was allocated to a private input.
    pub open spec fn is_private(self, i: int) -> bool {
        exists|j: int|
            0 <= j < self.private_input_indices@.len()
                && #[trigger] self.private_input_indices@[j] == i
    }

    /// Whether `c` is a valid position holding variable `i`.
    pub open spec fn cell_for(self, c: Cell, i: int) -> bool {
        &&& c.row < self.rows_of_vars@.len()
        &&& c.col < self.rows_of_vars@[c.row as int]@.len()
        &&& match self.rows_of_vars@[c.row as int]@[c.col as int] {
            Some(cv) => cv.index == i,
            None => false,
        }
    }

    /// The wiring list of variable `i` holds valid positions of `i`, in
    /// strictly increasing row-major order (hence all distinct).
    pub open spec fn wiring_entry_wf(self, i: int) -> bool {
        let list = self.wiring@[i]@;
        &&& forall|k: int| 0 <= k < list.len() ==> self.cell_for((#[trigger] list[k]).cell, i)
        &&& forall|k1: int, k2: int|
            0 <= k1 < k2 < list.len() ==> cell_lt(list[k1].cell, list[k2].cell)
    }

    /// Number of public-output cells reserved so far.
    pub open spec fn out_count(self) -> int {
        match self.public_output {
            Some(v) => v.cvars@.len() as int,
            None => 0,
        }
    }

    /// Number of declared public input cells (the public input section
    /// without the outputs appended at its tail).
    pub open spec fn pub_in_count(self) -> int {
        self.public_input_size - self.out_count()
    }

    /// Every input-slot value reads a slot inside the declared widths.
    pub open spec fn inputs_wf(self) -> bool {
        forall|i: int|
            0 <= i < self.num_vars() ==> match #[trigger] self.witness_vars@[i] {
                Value::PublicInput(s) => s < self.pub_in_count(),
                Value::PrivateInput(s) => s < self.private_input_indices@.len(),
                _ => true,
            }
    }

    /// The constant cache maps distinct constants to variables carrying
    /// exactly that constant.
    pub open spec fn cache_wf(self) -> bool {
        &&& forall|j: int|
            0 <= j < self.cached_constants@.len() ==> {
                let e = #[trigger] self.cached_constants@[j];
                &&& e.0 < FIELD_MODULUS
                &&& e.1.index < self.num_vars()
                &&& self.witness_vars@[e.1.index as int] == Value::Constant(e.0)
            }
        &&& forall|j1: int, j2: int|
            0 <= j1 < j2 < self.cached_constants@.len() ==> (#[trigger] self.cached_constants@[j1]).0
                != (#[trigger] self.cached_constants@[j2]).0
    }

    /// The reserved public-output cells all carry deferred output recipes.
    pub open spec fn output_wf(self) -> bool {
        match self.public_output {
            Some(v) => forall|k: int|
                0 <= k < v.cvars@.len() ==> match #[trigger] v.cvars@[k] {
                    ConstOrCell::Cell(cv) => cv.index < self.num_vars()
                        && self.witness_vars@[cv.index as int] is PublicOutput,
                    ConstOrCell::Const(_) => false,
                },
            None => true,
        }
    }

    pub open spec fn pending_wf(self) -> bool {
        match self.pending_generic_gate {
            Some(p) => {
                &&& p.vars@.len() <= GENERIC_REGISTERS
                &&& p.coeffs@.len() <= GENERIC_COEFFS
                &&& forall|j: int| 0 <= j < p.coeffs@.len() ==> #[trigger] p.coeffs@[j]
                    < FIELD_MODULUS
                &&& forall|j: int|
                    0 <= j < p.vars@.len() ==> match #[trigger] p.vars@[j] {
                        Some(cv) => cv.index < self.num_vars(),
                        None => true,
                    }
            },
            None => true,
        }
    }

    /// Structural well-formedness: arena, rows, gates, wiring, cache and
    /// output bookkeeping all agree.  Coverage (no variable dangling) is
    /// tracked separately by [`Self::all_covered`].
    pub open spec fn wf_base(self) -> bool {
        &&& self.wiring@.len() == self.num_vars()
        &&& forall|i: int| 0 <= i < self.num_vars() ==> value_wf(self.witness_vars@, i)
        &&& self.rows_of_vars@.len() == self.gates@.len()
        &&& forall|r: int|
            0 <= r < self.rows_of_vars@.len() ==> (#[trigger] self.rows_of_vars@[r])@.len()
                <= NUM_REGISTERS
        &&& forall|r: int, c: int|
            0 <= r < self.rows_of_vars@.len() && 0 <= c < self.rows_of_vars@[r]@.len()
                ==> match #[trigger] self.rows_of_vars@[r]@[c] {
                Some(cv) => cv.index < self.num_vars(),
                None => true,
            }
        &&& forall|g: int| 0 <= g < self.gates@.len() ==> (#[trigger] self.gates@[g]).coeffs@.len()
            <= NUM_REGISTERS
        &&& forall|g: int, j: int|
            0 <= g < self.gates@.len() && 0 <= j < self.gates@[g].coeffs@.len()
                ==> (#[trigger] self.gates@[g].coeffs@[j]) < FIELD_MODULUS
        &&& forall|i: int| 0 <= i < self.num_vars() ==> self.wiring_entry_wf(i)
        &&& forall|j: int| 0 <= j < self.private_input_indices@.len()
            ==> (#[trigger] self.private_input_indices@[j]) < self.witness_vars@.len()
        &&& self.pending_wf()
        &&& self.cache_wf()
        &&& self.output_wf()
        &&& self.out_count() <= self.public_input_size
    }

    /// Variable `i` is accounted for: it stands in a row, waits in the
    /// pending gate, or is a declared private input.
    pub open spec fn covered(self, i: int) -> bool {
        self.occurs_in_rows(i) || self.pending_contains(i) || self.is_private(i)
    }

    pub open spec fn all_covered(self) -> bool {
        forall|i: int| 0 <= i < self.num_vars() ==> self.covered(i)
    }

    /// Every cached constant's variable already stands in a row or in the
    /// pending gate: it is genuinely constrained before any reuse.
    pub open spec fn cache_constrained(self) -> bool {
        forall|j: int|
            0 <= j < self.cached_constants@.len() ==> self.occurs_in_rows(
                (#[trigger] self.cached_constants@[j]).1.index as int,
            ) || self.pending_contains(self.cached_constants@[j].1.index as int)
    }

    pub open spec fn wf(self) -> bool {
        self.wf_base() && self.all_covered() && self.inputs_wf() && self.cache_constrained()
    }

    /// Occurrence in rows only depends on the trace table.
    pub proof fn lemma_occurs_same_rows(a: CircuitWriter, b: CircuitWriter, i: int)
        requires
            a.rows_of_vars@ == b.rows_of_vars@,
            a.occurs_in_rows(i),
        ensures
            b.occurs_in_rows(i),
    {
        let r = choose|r: int|
            0 <= r < a.rows_of_vars@.len() && row_has(#[trigger] a.rows_of_vars@[r]@, i);
        assert(row_has(b.rows_of_vars@[r]@, i));
    }

    /// Coverage carries over to a session whose trace table, pending gate
    /// and private-input list are unchanged.
    pub proof fn lemma_covered_preserved(a: CircuitWriter, b: CircuitWriter, i: int)
        requires
            a.rows_of_vars@ == b.rows_of_vars@,
            a.pending_generic_gate == b.pending_generic_gate,
            a.private_input_indices@ == b.private_input_indices@,
            a.covered(i),
        ensures
            b.covered(i),
    {
        if a.occurs_in_rows(i) {
            Self::lemma_occurs_same_rows(a, b, i);
        } else if a.pending_contains(i) {
            assert(b.pending_contains(i));
        } else {
            let j = choose|j: int|
                0 <= j < a.private_input_indices@.len() && #[trigger] a.private_input_indices@[j]
                    == i;
            assert(b.private_input_indices@[j] == i);
        }
    }

    /// A variable never placed in any row of a well-formed session: one
    /// whose id is out of the rows' range.
    pub proof fn lemma_fresh_not_in_rows(self, i: int)
        requires
            forall|r: int, c: int|
                0 <= r < self.rows_of_vars@.len() && 0 <= c < self.rows_of_vars@[r]@.len()
                    ==> match #[trigger] self.rows_of_vars@[r]@[c] {
                    Some(cv) => cv.index < i,
                    None => true,
                },
        ensures
            !self.occurs_in_rows(i),
    {
        if self.occurs_in_rows(i) {
            let r = choose|r: int|
                0 <= r < self.rows_of_vars@.len() && row_has(#[trigger] self.rows_of_vars@[r]@, i);
            let row = self.rows_of_vars@[r]@;
            let c = choose|c: int|
                0 <= c < row.len() && match #[trigger] row[c] {
                    Some(cv) => cv.index == i,
                    None => false,
                };
            assert(false);
        }
    }

    /// Creates a fresh compilation session with all counters at zero.
    pub fn new(double_generic_gate_optimization: bool) -> (w: CircuitWriter)
        ensures
            w.wf(),
            w.num_vars() == 0,
            w.gates@.len() == 0,
            w.rows_of_vars@.len() == 0,
            w.public_input_size == 0,
            w.public_output is None,
            w.private_input_indices@.len() == 0,
            w.pending_generic_gate is None,
            w.cached_constants@.len() == 0,
            w.double_generic_gate_optimization == double_generic_gate_optimization,
            !w.finalized,
    {
        CircuitWriter {
            witness_vars: Vec::new(),
            rows_of_vars: Vec::new(),
            gates: Vec::new(),
            wiring: Vec::new(),
            public_input_size: 0,
            public_output: None,
            private_input_indices: Vec::new(),
            double_generic_gate_optimization,
            pending_generic_gate: None,
            cached_constants: Vec::new(),
            finalized: false,
        }
    }

    /// Allocates the next unused id, records `val` as its recipe, and
    /// returns the new cell variable.  The caller is responsible for
    /// placing the variable in a row (or registering it as a private
    /// input) to keep the session covered, and for keeping input slots
    /// inside the declared widths.
    pub fn new_internal_var(&mut self, val: Value, span: Span) -> (cvar: CellVar)
        requires
            old(self).wf_base(),
            value_wf(old(self).witness_vars@.push(val), old(self).witness_vars@.len() as int),
        ensures
            final(self).wf_base(),
            cvar.index == old(self).num_vars(),
            cvar.span == span,
            final(self).witness_vars@ == old(self).witness_vars@.push(val),
            final(self).num_vars() == old(self).num_vars() + 1,
            final(self).wiring@.len() == old(self).wiring@.len() + 1,
            forall|i: int|
                0 <= i < old(self).num_vars() ==> final(self).wiring@[i] == old(self).wiring@[i],
            final(self).wiring@[old(self).num_vars()]@.len() == 0,
            final(self).rows_of_vars@ == old(self).rows_of_vars@,
            final(self).gates@ == old(self).gates@,
            final(self).public_input_size == old(self).public_input_size,
            final(self).public_output == old(self).public_output,
            final(self).private_input_indices@ == old(self).private_input_indices@,
            final(self).pending_generic_gate == old(self).pending_generic_gate,
            final(self).cached_constants@ == old(self).cached_constants@,
            final(self).double_generic_gate_optimization == old(self).double_generic_gate_optimization,
            final(self).finalized == old(self).finalized,
            forall|i: int|
                0 <= i < old(self).num_vars() && old(self).covered(i) ==> final(self).covered(i),
            forall|i: int| final(self).settled(i) ==> old(self).settled(i),
            !final(self).occurs_in_rows(old(self).num_vars()),
    {
        let index = self.witness_vars.len();
        self.witness_vars.push(val);
        self.wiring.push(Vec::new());
        let cvar = CellVar { index, span };
        proof {
            let pre = *old(self);
            let post = *self;
            assert forall|i: int| 0 <= i < post.num_vars() implies value_wf(
                post.witness_vars@,
                i,
            ) by {
                if i < pre.num_vars() {
                    assert(value_wf(pre.witness_vars@, i));
                    assert(post.witness_vars@[i] == pre.witness_vars@[i]);
                }
            }
            assert forall|i: int| 0 <= i < post.num_vars() implies post.wiring_entry_wf(i) by {
                if i < pre.num_vars() {
                    assert(pre.wiring_entry_wf(i));
                    assert(post.wiring@[i] == pre.wiring@[i]);
                }
            }
            assert forall|j: int| 0 <= j < post.cached_constants@.len() implies {
                let e = #[trigger] post.cached_constants@[j];
                &&& e.0 < FIELD_MODULUS
                &&& e.1.index < post.num_vars()
                &&& post.witness_vars@[e.1.index as int] == Value::Constant(e.0)
            } by {
                let e = post.cached_constants@[j];
                assert(pre.cached_constants@[j] == e);
            }
            assert forall|i: int|
                0 <= i < pre.num_vars() && pre.covered(i) implies post.covered(i) by {
                Self::lemma_covered_preserved(pre, post, i);
            }
            post.lemma_fresh_not_in_rows(pre.num_vars());
            assert forall|i: int| post.settled(i) implies pre.settled(i) by {
                if post.occurs_in_rows(i) {
                    Self::lemma_occurs_same_rows(post, pre, i);
                }
            }
        }
        cvar
    }


    /// Structural well-formedness transfers to a session with identical
    /// arena, trace table, gate table, wiring, pending gate and cache,
    /// whatever its scalar bookkeeping fields say.
    pub proof fn lemma_wf_base_transfer_general(a: CircuitWriter, b: CircuitWriter)
        requires
            a.wf_base(),
            b.witness_vars@ == a.witness_vars@,
            b.rows_of_vars@ == a.rows_of_vars@,
            b.gates@ == a.gates@,
            b.wiring@ == a.wiring@,
            b.pending_wf(),
            b.cache_wf(),
            b.public_output == a.public_output,
            b.out_count() <= b.public_input_size,
            forall|j: int|
                0 <= j < b.private_input_indices@.len()
                    ==> (#[trigger] b.private_input_indices@[j]) < b.witness_vars@.len(),
        ensures
            b.wf_base(),
    {
        assert forall|i: int| 0 <= i < b.num_vars() implies b.wiring_entry_wf(i) by {
            assert(a.wiring_entry_wf(i));
            let list = b.wiring@[i]@;
            assert(list == a.wiring@[i]@);
            assert forall|k: int| 0 <= k < list.len() implies b.cell_for(
                (#[trigger] list[k]).cell,
                i,
            ) by {
                assert(a.cell_for(list[k].cell, i));
            }
        }
        assert forall|i: int| 0 <= i < b.num_vars() implies value_wf(b.witness_vars@, i) by {
            assert(value_wf(a.witness_vars@, i));
        }
        assert(b.output_wf()) by {
            assert(a.output_wf());
        }
    }

    /// The same transfer when the constant cache is unchanged too.
    pub proof fn lemma_wf_base_transfer(a: CircuitWriter, b: CircuitWriter)
        requires
            a.wf_base(),
            b.witness_vars@ == a.witness_vars@,
            b.rows_of_vars@ == a.rows_of_vars@,
            b.gates@ == a.gates@,
            b.wiring@ == a.wiring@,
            b.pending_generic_gate == a.pending_generic_gate,
            b.cached_constants@ == a.cached_constants@,
            b.public_output == a.public_output,
            b.out_count() <= b.public_input_size,
            forall|j: int|
                0 <= j < b.private_input_indices@.len()
                    ==> (#[trigger] b.private_input_indices@[j]) < b.witness_vars@.len(),
        ensures
            b.wf_base(),
    {
        assert forall|j: int| 0 <= j < b.cached_constants@.len() implies {
            let e = #[trigger] b.cached_constants@[j];
            &&& e.0 < FIELD_MODULUS
            &&& e.1.index < b.num_vars()
            &&& b.witness_vars@[e.1.index as int] == Value::Constant(e.0)
        } by {
            assert(b.cached_constants@[j] == a.cached_constants@[j]);
        }
        assert(b.pending_wf()) by {
            assert(a.pending_wf());
        }
        Self::lemma_wf_base_transfer_general(a, b);
    }

    /// Occurrence in rows survives appending rows to the trace table.
    pub proof fn lemma_occurs_rows_extended(a: CircuitWriter, b: CircuitWriter, i: int)
        requires
            a.rows_of_vars@.len() <= b.rows_of_vars@.len(),
            forall|r: int|
                0 <= r < a.rows_of_vars@.len() ==> a.rows_of_vars@[r] == b.rows_of_vars@[r],
            a.occurs_in_rows(i),
        ensures
            b.occurs_in_rows(i),
    {
        let r = choose|r: int|
            0 <= r < a.rows_of_vars@.len() && row_has(#[trigger] a.rows_of_vars@[r]@, i);
        assert(row_has(b.rows_of_vars@[r]@, i));
    }

    /// Coverage survives appending rows when the pending gate and the
    /// private-input list are unchanged.
    pub proof fn lemma_covered_rows_extended(a: CircuitWriter, b: CircuitWriter, i: int)
        requires
            a.rows_of_vars@.len() <= b.rows_of_vars@.len(),
            forall|r: int|
                0 <= r < a.rows_of_vars@.len() ==> a.rows_of_vars@[r] == b.rows_of_vars@[r],
            a.pending_generic_gate == b.pending_generic_gate,
            a.private_input_indices@ == b.private_input_indices@,
            a.covered(i),
        ensures
            b.covered(i),
    {
        if a.occurs_in_rows(i) {
            Self::lemma_occurs_rows_extended(a, b, i);
        } else if a.pending_contains(i) {
            assert(b.pending_contains(i));
        } else {
            let j = choose|j: int|
                0 <= j < a.private_input_indices@.len() && #[trigger] a.private_input_indices@[j]
                    == i;
            assert(b.private_input_indices@[j] == i);
        }
    }

    /// Appends one physical row holding the given wire slots and
    /// coefficients, and records each occupying variable's new position in
    /// the wiring accumulator.
    pub fn add_gate(
        &mut self,
        label: &'static str,
        typ: GateKind,
        vars: Vec<Option<CellVar>>,
        coeffs: Vec<u64>,
        span: Span,
    )
        requires
            old(self).wf_base(),
            vars@.len() <= NUM_REGISTERS,
            coeffs@.len() <= NUM_REGISTERS,
            forall|j: int| 0 <= j < coeffs@.len() ==> #[trigger] coeffs@[j] < FIELD_MODULUS,
            forall|j: int|
                0 <= j < vars@.len() ==> match #[trigger] vars@[j] {
                    Some(cv) => cv.index < old(self).num_vars(),
                    None => true,
                },
        ensures
            final(self).wf_base(),
            final(self).gates@.len() == old(self).gates@.len() + 1,
            final(self).gates@[old(self).gates@.len() as int].typ == typ,
            final(self).gates@[old(self).gates@.len() as int].coeffs@ == coeffs@,
            final(self).gates@[old(self).gates@.len() as int].span == span,
            forall|g: int|
                0 <= g < old(self).gates@.len() ==> final(self).gates@[g] == old(self).gates@[g],
            final(self).rows_of_vars@.len() == old(self).rows_of_vars@.len() + 1,
            final(self).rows_of_vars@[old(self).rows_of_vars@.len() as int]@ == vars@,
            forall|r: int|
                0 <= r < old(self).rows_of_vars@.len() ==> final(self).rows_of_vars@[r] == old(self).rows_of_vars@[r],
            final(self).witness_vars@ == old(self).witness_vars@,
            final(self).public_input_size == old(self).public_input_size,
            final(self).public_output == old(self).public_output,
            final(self).private_input_indices@ == old(self).private_input_indices@,
            final(self).pending_generic_gate == old(self).pending_generic_gate,
            final(self).cached_constants@ == old(self).cached_constants@,
            final(self).double_generic_gate_optimization == old(self).double_generic_gate_optimization,
            final(self).finalized == old(self).finalized,
            forall|i: int| old(self).occurs_in_rows(i) ==> final(self).occurs_in_rows(i),
            forall|i: int|
                final(self).occurs_in_rows(i) ==> old(self).occurs_in_rows(i) || row_has(vars@, i),
            forall|i: int|
                0 <= i < old(self).num_vars() && old(self).covered(i) ==> final(self).covered(i),
            forall|j: int|
                0 <= j < vars@.len() ==> match #[trigger] vars@[j] {
                    Some(cv) => final(self).occurs_in_rows(cv.index as int),
                    None => true,
                },
    {
        let ghost pre = *old(self);
        let row = self.rows_of_vars.len();
        self.gates.push(Gate { typ, coeffs, span });
        self.rows_of_vars.push(vars);
        let n = self.rows_of_vars[row].len();
        let mut col: usize = 0;
        proof {
            let mid = *self;
            assert forall|i: int| 0 <= i < mid.num_vars() implies mid.wiring_entry_wf(i) by {
                assert(pre.wiring_entry_wf(i));
                assert(mid.wiring@[i] == pre.wiring@[i]);
                let list = mid.wiring@[i]@;
                assert forall|k: int| 0 <= k < list.len() implies mid.cell_for(
                    (#[trigger] list[k]).cell,
                    i,
                ) by {
                    assert(pre.cell_for(list[k].cell, i));
                    assert(mid.rows_of_vars@[list[k].cell.row as int] == pre.rows_of_vars@[list[k].cell.row as int]);
                }
            }
            assert forall|i: int, k: int|
                0 <= i < mid.num_vars() && 0 <= k < mid.wiring@[i]@.len() implies cell_lt(
                (#[trigger] mid.wiring@[i]@[k]).cell,
                (Cell { row, col: 0 }),
            ) by {
                assert(pre.wiring_entry_wf(i));
                assert(mid.wiring@[i] == pre.wiring@[i]);
                assert(pre.cell_for(pre.wiring@[i]@[k].cell, i));
            }
        }
        while col < n
            invariant
                pre.wf_base(),
                col <= n,
                row == pre.rows_of_vars@.len(),
                self.witness_vars@ == pre.witness_vars@,
                self.gates@.len() == pre.gates@.len() + 1,
                self.gates@[row as int].typ == typ,
                self.gates@[row as int].coeffs@ == coeffs@,
                self.gates@[row as int].span == span,
                forall|g: int| 0 <= g < row ==> self.gates@[g] == pre.gates@[g],
                self.rows_of_vars@.len() == row + 1,
                self.rows_of_vars@[row as int]@ == vars@,
                n == vars@.len(),
                forall|r: int| 0 <= r < row ==> self.rows_of_vars@[r] == pre.rows_of_vars@[r],
                self.public_input_size == pre.public_input_size,
                self.public_output == pre.public_output,
                self.private_input_indices@ == pre.private_input_indices@,
                self.pending_generic_gate == pre.pending_generic_gate,
                self.cached_constants@ == pre.cached_constants@,
                self.double_generic_gate_optimization == pre.double_generic_gate_optimization,
                self.finalized == pre.finalized,
                self.wiring@.len() == pre.wiring@.len(),
                forall|j: int| 0 <= j < coeffs@.len() ==> #[trigger] coeffs@[j] < FIELD_MODULUS,
                vars@.len() <= NUM_REGISTERS,
                coeffs@.len() <= NUM_REGISTERS,
                forall|j: int|
                    0 <= j < vars@.len() ==> match #[trigger] vars@[j] {
                        Some(cv) => cv.index < pre.num_vars(),
                        None => true,
                    },
                forall|i: int| 0 <= i < self.num_vars() ==> self.wiring_entry_wf(i),
                forall|i: int, k: int|
                    0 <= i < self.num_vars() && 0 <= k < self.wiring@[i]@.len() ==> cell_lt(
                        (#[trigger] self.wiring@[i]@[k]).cell,
                        (Cell { row, col }),
                    ),
            decreases n - col,
        {
            let slot = self.rows_of_vars[row][col];
            if let Some(cv) = slot {
                let ac = AnnotatedCell { cell: Cell { row, col }, debug: label };
                let ghost before = *self;
                self.wiring[cv.index].push(ac);
                proof {
                    assert forall|i: int| 0 <= i < self.num_vars() implies self.wiring_entry_wf(
                        i,
                    ) by {
                        assert(before.wiring_entry_wf(i));
                        if i != cv.index as int {
                            assert(self.wiring@[i] == before.wiring@[i]);
                        } else {
                            assert(self.wiring@[i]@ == before.wiring@[i]@.push(ac));
                        }
                    }
                }
            }
            col += 1;
            proof {
                assert forall|i: int, k: int|
                    0 <= i < self.num_vars() && 0 <= k < self.wiring@[i]@.len() implies cell_lt(
                    (#[trigger] self.wiring@[i]@[k]).cell,
                    (Cell { row, col }),
                ) by {}
            }
        }
        proof {
            let post = *self;
            assert forall|r: int|
                0 <= r < post.rows_of_vars@.len() implies (#[trigger] post.rows_of_vars@[r])@.len()
                <= NUM_REGISTERS by {
                if r < row {
                    assert(post.rows_of_vars@[r] == pre.rows_of_vars@[r]);
                } else {
                    assert(post.rows_of_vars@[r]@ == vars@);
                }
            }
            assert forall|r: int, c: int|
                0 <= r < post.rows_of_vars@.len() && 0 <= c < post.rows_of_vars@[r]@.len() implies match #[trigger] post.rows_of_vars@[r]@[c] {
                Some(cv) => cv.index < post.num_vars(),
                None => true,
            } by {
                if r < row {
                    assert(post.rows_of_vars@[r] == pre.rows_of_vars@[r]);
                    assert(match pre.rows_of_vars@[r]@[c] {
                        Some(cv) => cv.index < pre.num_vars(),
                        None => true,
                    });
                }
            }
            assert forall|g: int|
                0 <= g < post.gates@.len() implies (#[trigger] post.gates@[g]).coeffs@.len()
                <= NUM_REGISTERS by {
                if g < row {
                    assert(post.gates@[g] == pre.gates@[g]);
                }
            }
            assert forall|g: int, j: int|
                0 <= g < post.gates@.len() && 0 <= j
                    < post.gates@[g].coeffs@.len() implies (#[trigger] post.gates@[g].coeffs@[j])
                < FIELD_MODULUS by {
                if g < row {
                    assert(post.gates@[g] == pre.gates@[g]);
                    assert(pre.gates@[g].coeffs@[j] < FIELD_MODULUS);
                }
            }
            assert forall|i: int| 0 <= i < post.num_vars() implies value_wf(
                post.witness_vars@,
                i,
            ) by {
                assert(value_wf(pre.witness_vars@, i));
            }
            assert forall|j: int| 0 <= j < post.cached_constants@.len() implies {
                let e = #[trigger] post.cached_constants@[j];
                &&& e.0 < FIELD_MODULUS
                &&& e.1.index < post.num_vars()
                &&& post.witness_vars@[e.1.index as int] == Value::Constant(e.0)
            } by {
                let e = post.cached_constants@[j];
                assert(pre.cached_constants@[j] == e);
            }
            assert forall|i: int| pre.occurs_in_rows(i) implies post.occurs_in_rows(i) by {
                Self::lemma_occurs_rows_extended(pre, post, i);
            }
            assert forall|i: int| post.occurs_in_rows(i) implies pre.occurs_in_rows(i) || row_has(
                vars@,
                i,
            ) by {
                let r2 = choose|r2: int|
                    0 <= r2 < post.rows_of_vars@.len() && row_has(
                        #[trigger] post.rows_of_vars@[r2]@,
                        i,
                    );
                if r2 < row {
                    assert(post.rows_of_vars@[r2] == pre.rows_of_vars@[r2]);
                    assert(row_has(pre.rows_of_vars@[r2]@, i));
                } else {
                    assert(post.rows_of_vars@[r2]@ == vars@);
                }
            }
            assert forall|i: int|
                0 <= i < pre.num_vars() && pre.covered(i) implies post.covered(i) by {
                Self::lemma_covered_rows_extended(pre, post, i);
            }
            assert forall|j: int| 0 <= j < vars@.len() implies match #[trigger] vars@[j] {
                Some(cv) => post.occurs_in_rows(cv.index as int),
                None => true,
            } by {
                match vars@[j] {
                    Some(cv) => {
                        assert(post.rows_of_vars@[row as int]@[j] == vars@[j]);
                        assert(row_has(post.rows_of_vars@[row as int]@, cv.index as int));
                    },
                    None => {},
                }
            }
        }
    }

    /// Pads one logical generic gate's wire slots to the full half-row width.
    pub open spec fn pad_vars(v: Seq<Option<CellVar>>) -> Seq<Option<CellVar>> {
        if v.len() >= GENERIC_REGISTERS {
            v
        } else {
            v + Seq::new((GENERIC_REGISTERS - v.len()) as nat, |i: int| None::<CellVar>)
        }
    }

    /// Pads one logical generic gate's coefficients to the full half width.
    pub open spec fn pad_coeffs(c: Seq<u64>) -> Seq<u64> {
        if c.len() >= GENERIC_COEFFS {
            c
        } else {
            c + Seq::new((GENERIC_COEFFS - c.len()) as nat, |i: int| 0u64)
        }
    }

    /// Submits one logical generic gate.  With the packing optimization off,
    /// it gets its own physical row at once.  With it on, a first
    /// logical gate is buffered; a second one is merged with the buffered
    /// one into a single physical double-generic row, each logical gate
    /// keeping its own half of the row's wire slots and coefficients.
    pub fn add_generic_gate(
        &mut self,
        label: &'static str,
        vars: Vec<Option<CellVar>>,
        coeffs: Vec<u64>,
        span: Span,
    )
        requires
            old(self).wf_base(),
            vars@.len() <= GENERIC_REGISTERS,
            coeffs@.len() <= GENERIC_COEFFS,
            forall|j: int| 0 <= j < coeffs@.len() ==> #[trigger] coeffs@[j] < FIELD_MODULUS,
            forall|j: int|
                0 <= j < vars@.len() ==> match #[trigger] vars@[j] {
                    Some(cv) => cv.index < old(self).num_vars(),
                    None => true,
                },
        ensures
            final(self).wf_base(),
            final(self).witness_vars@ == old(self).witness_vars@,
            final(self).public_input_size == old(self).public_input_size,
            final(self).public_output == old(self).public_output,
            final(self).private_input_indices@ == old(self).private_input_indices@,
            final(self).cached_constants@ == old(self).cached_constants@,
            final(self).double_generic_gate_optimization == old(self).double_generic_gate_optimization,
            final(self).finalized == old(self).finalized,
            forall|i: int|
                old(self).occurs_in_rows(i) || old(self).pending_contains(i) ==> final(self).occurs_in_rows(i) || final(self).pending_contains(i),
            forall|i: int| final(self).settled(i) ==> old(self).settled(i) || row_has(vars@, i),
            forall|i: int|
                0 <= i < old(self).num_vars() && old(self).covered(i) ==> final(self).covered(i),
            forall|j: int|
                0 <= j < vars@.len() ==> match #[trigger] vars@[j] {
                    Some(cv) => final(self).occurs_in_rows(cv.index as int)
                        || final(self).pending_contains(cv.index as int),
                    None => true,
                },
            generic_gate_submitted(*old(self), *final(self), vars@, coeffs@),
            !old(self).double_generic_gate_optimization ==> {
                &&& final(self).gates@.len() == old(self).gates@.len() + 1
                &&& final(self).rows_of_vars@[old(self).rows_of_vars@.len() as int]@ == vars@
                &&& final(self).gates@[old(self).gates@.len() as int].coeffs@ == coeffs@
                &&& final(self).gates@[old(self).gates@.len() as int].typ
                    == GateKind::DoubleGeneric
                &&& final(self).pending_generic_gate == old(self).pending_generic_gate
                &&& forall|g: int|
                    0 <= g < old(self).gates@.len() ==> final(self).gates@[g] == old(self).gates@[g]
                &&& forall|r: int|
                    0 <= r < old(self).rows_of_vars@.len() ==> final(self).rows_of_vars@[r] == old(self).rows_of_vars@[r]
            },
            old(self).double_generic_gate_optimization && old(self).pending_generic_gate is None
                ==> {
                &&& final(self).gates@ == old(self).gates@
                &&& final(self).rows_of_vars@ == old(self).rows_of_vars@
                &&& match final(self).pending_generic_gate {
                    Some(p) => p.vars@ == vars@ && p.coeffs@ == coeffs@ && p.span == span,
                    None => false,
                }
            },
            old(self).double_generic_gate_optimization && old(self).pending_generic_gate is Some
                ==> {
                let p = old(self).pending_generic_gate->Some_0;
                &&& final(self).gates@.len() == old(self).gates@.len() + 1
                &&& final(self).rows_of_vars@[old(self).rows_of_vars@.len() as int]@
                    == Self::pad_vars(p.vars@) + Self::pad_vars(vars@)
                &&& final(self).gates@[old(self).gates@.len() as int].coeffs@ == Self::pad_coeffs(
                    p.coeffs@,
                ) + Self::pad_coeffs(coeffs@)
                &&& final(self).gates@[old(self).gates@.len() as int].typ
                    == GateKind::DoubleGeneric
                &&& final(self).pending_generic_gate is None
                &&& forall|g: int|
                    0 <= g < old(self).gates@.len() ==> final(self).gates@[g] == old(self).gates@[g]
                &&& forall|r: int|
                    0 <= r < old(self).rows_of_vars@.len() ==> final(self).rows_of_vars@[r] == old(self).rows_of_vars@[r]
            },
    {
        let ghost pre = *old(self);
        if !self.double_generic_gate_optimization {
            self.add_gate(label, GateKind::DoubleGeneric, vars, coeffs, span);
            proof {
                assert forall|i: int|
                    pre.occurs_in_rows(i) || pre.pending_contains(i) implies self.occurs_in_rows(
                    i,
                ) || self.pending_contains(i) by {
                    if pre.occurs_in_rows(i) {
                        Self::lemma_occurs_rows_extended(pre, *self, i);
                    }
                }
                assert forall|i: int| self.settled(i) implies pre.settled(i) || row_has(
                    vars@,
                    i,
                ) by {}
            }
            return ;
        }
        let pending = self.pending_generic_gate.take();
        match pending {
            None => {
                self.pending_generic_gate = Some(
                    PendingGate { label, coeffs, vars, span },
                );
                proof {
                    let post = *self;
                    assert forall|i: int| 0 <= i < post.num_vars() implies post.wiring_entry_wf(
                        i,
                    ) by {
                        assert(pre.wiring_entry_wf(i));
                        assert(post.wiring@[i] == pre.wiring@[i]);
                    }
                    assert forall|j: int| 0 <= j < post.cached_constants@.len() implies {
                        let e = #[trigger] post.cached_constants@[j];
                        &&& e.0 < FIELD_MODULUS
                        &&& e.1.index < post.num_vars()
                        &&& post.witness_vars@[e.1.index as int] == Value::Constant(e.0)
                    } by {
                        let e = post.cached_constants@[j];
                        assert(pre.cached_constants@[j] == e);
                    }
                    assert forall|i: int|
                        0 <= i < pre.num_vars() && pre.covered(i) implies post.covered(i) by {
                        if pre.occurs_in_rows(i) {
                            Self::lemma_occurs_same_rows(pre, post, i);
                        } else if pre.is_private(i) {
                            let j = choose|j: int|
                                0 <= j < pre.private_input_indices@.len()
                                    && #[trigger] pre.private_input_indices@[j] == i;
                            assert(post.private_input_indices@[j] == i);
                        }
                    }
                    assert forall|i: int|
                        pre.occurs_in_rows(i) || pre.pending_contains(i) implies post.occurs_in_rows(
                        i,
                    ) || post.pending_contains(i) by {
                        if pre.occurs_in_rows(i) {
                            Self::lemma_occurs_same_rows(pre, post, i);
                        }
                    }
                    assert forall|j: int| 0 <= j < vars@.len() implies match #[trigger] vars@[j] {
                        Some(cv) => post.occurs_in_rows(cv.index as int) || post.pending_contains(
                            cv.index as int,
                        ),
                        None => true,
                    } by {
                        match vars@[j] {
                            Some(cv) => {
                                let p = post.pending_generic_gate->Some_0;
                                assert(p.vars@[j] == vars@[j]);
                                assert(post.pending_contains(cv.index as int));
                            },
                            None => {},
                        }
                    }
                    assert forall|i: int| post.settled(i) implies pre.settled(i) || row_has(
                        vars@,
                        i,
                    ) by {
                        if post.occurs_in_rows(i) {
                            Self::lemma_occurs_same_rows(post, pre, i);
                        } else {
                            let p = post.pending_generic_gate->Some_0;
                            let j = choose|j: int|
                                0 <= j < p.vars@.len() && match #[trigger] p.vars@[j] {
                                    Some(cv) => cv.index == i,
                                    None => false,
                                };
                            assert(match vars@[j] {
                                Some(cv) => cv.index == i,
                                None => false,
                            });
                        }
                    }
                }
            },
            Some(p) => {
                let mut merged_vars = p.vars;
                pad_generic_vars(&mut merged_vars);
                let mut second_vars = vars;
                pad_generic_vars(&mut second_vars);
                merged_vars.append(&mut second_vars);
                let mut merged_coeffs = p.coeffs;
                pad_generic_coeffs(&mut merged_coeffs);
                let mut second_coeffs = coeffs;
                pad_generic_coeffs(&mut second_coeffs);
                merged_coeffs.append(&mut second_coeffs);
                let ghost mid = *self;
                proof {
                    assert forall|i: int| 0 <= i < mid.num_vars() implies mid.wiring_entry_wf(
                        i,
                    ) by {
                        assert(pre.wiring_entry_wf(i));
                        assert(mid.wiring@[i] == pre.wiring@[i]);
                    }
                    assert forall|j: int|
                        0 <= j < merged_vars@.len() implies match #[trigger] merged_vars@[j] {
                        Some(cv) => cv.index < mid.num_vars(),
                        None => true,
                    } by {
                        if j < GENERIC_REGISTERS {
                            if j < p.vars@.len() {
                                assert(merged_vars@[j] == p.vars@[j]);
                            } else {
                                assert(merged_vars@[j] is None);
                            }
                        } else {
                            if j - GENERIC_REGISTERS < vars@.len() {
                                assert(merged_vars@[j] == vars@[j - GENERIC_REGISTERS]);
                            } else {
                                assert(merged_vars@[j] is None);
                            }
                        }
                    }
                    assert forall|j: int|
                        0 <= j < merged_coeffs@.len() implies #[trigger] merged_coeffs@[j]
                        < FIELD_MODULUS by {
                        if j < GENERIC_COEFFS {
                            if j < p.coeffs@.len() {
                                assert(merged_coeffs@[j] == p.coeffs@[j]);
                            } else {
                                assert(merged_coeffs@[j] == 0u64);
                            }
                        } else {
                            if j - GENERIC_COEFFS < coeffs@.len() {
                                assert(merged_coeffs@[j] == coeffs@[j - GENERIC_COEFFS]);
                            } else {
                                assert(merged_coeffs@[j] == 0u64);
                            }
                        }
                    }
                    assert forall|j: int| 0 <= j < mid.cached_constants@.len() implies {
                        let e = #[trigger] mid.cached_constants@[j];
                        &&& e.0 < FIELD_MODULUS
                        &&& e.1.index < mid.num_vars()
                        &&& mid.witness_vars@[e.1.index as int] == Value::Constant(e.0)
                    } by {
                        let e = mid.cached_constants@[j];
                        assert(pre.cached_constants@[j] == e);
                    }
                }
                self.add_gate(p.label, GateKind::DoubleGeneric, merged_vars, merged_coeffs, p.span);
                proof {
                    let post = *self;
                    let ghost grow = pre.rows_of_vars@.len() as int;
                    assert forall|i: int|
                        pre.occurs_in_rows(i) || pre.pending_contains(i) implies post.occurs_in_rows(
                        i,
                    ) || post.pending_contains(i) by {
                        if pre.occurs_in_rows(i) {
                            Self::lemma_occurs_rows_extended(pre, post, i);
                        } else {
                            let k = choose|k: int|
                                0 <= k < p.vars@.len() && match #[trigger] p.vars@[k] {
                                    Some(cv) => cv.index == i,
                                    None => false,
                                };
                            assert(merged_vars@[k] == p.vars@[k]);
                            assert(post.rows_of_vars@[grow]@[k] == merged_vars@[k]);
                            assert(row_has(post.rows_of_vars@[grow]@, i));
                        }
                    }
                    assert forall|i: int|
                        0 <= i < pre.num_vars() && pre.covered(i) implies post.covered(i) by {
                        if pre.occurs_in_rows(i) {
                            Self::lemma_occurs_rows_extended(pre, post, i);
                        } else if pre.pending_contains(i) {
                            let k = choose|k: int|
                                0 <= k < p.vars@.len() && match #[trigger] p.vars@[k] {
                                    Some(cv) => cv.index == i,
                                    None => false,
                                };
                            assert(merged_vars@[k] == p.vars@[k]);
                            assert(post.rows_of_vars@[grow]@[k] == merged_vars@[k]);
                            assert(row_has(post.rows_of_vars@[grow]@, i));
                        } else {
                            let j = choose|j: int|
                                0 <= j < pre.private_input_indices@.len()
                                    && #[trigger] pre.private_input_indices@[j] == i;
                            assert(post.private_input_indices@[j] == i);
                        }
                    }
                    assert forall|j: int| 0 <= j < vars@.len() implies match #[trigger] vars@[j] {
                        Some(cv) => post.occurs_in_rows(cv.index as int) || post.pending_contains(
                            cv.index as int,
                        ),
                        None => true,
                    } by {
                        match vars@[j] {
                            Some(cv) => {
                                assert(merged_vars@[GENERIC_REGISTERS + j] == vars@[j]);
                                assert(post.rows_of_vars@[grow]@[GENERIC_REGISTERS + j]
                                    == merged_vars@[GENERIC_REGISTERS + j]);
                                assert(row_has(post.rows_of_vars@[grow]@, cv.index as int));
                            },
                            None => {},
                        }
                    }
                    assert forall|i: int| post.settled(i) implies pre.settled(i) || row_has(
                        vars@,
                        i,
                    ) by {
                        assert(post.occurs_in_rows(i));
                        assert(mid.occurs_in_rows(i) || row_has(merged_vars@, i));
                        if mid.occurs_in_rows(i) {
                            Self::lemma_occurs_same_rows(mid, pre, i);
                        } else {
                            let c = choose|c: int|
                                0 <= c < merged_vars@.len() && match #[trigger] merged_vars@[c] {
                                    Some(cv) => cv.index == i,
                                    None => false,
                                };
                            if c < GENERIC_REGISTERS {
                                if c < p.vars@.len() {
                                    assert(merged_vars@[c] == p.vars@[c]);
                                    assert(match p.vars@[c] {
                                        Some(cv) => cv.index == i,
                                        None => false,
                                    });
                                    assert(pre.pending_contains(i));
                                } else {
                                    assert(merged_vars@[c] is None);
                                }
                            } else {
                                if c - GENERIC_REGISTERS < vars@.len() {
                                    assert(merged_vars@[c] == vars@[c - GENERIC_REGISTERS]);
                                    assert(match vars@[c - GENERIC_REGISTERS] {
                                        Some(cv) => cv.index == i,
                                        None => false,
                                    });
                                } else {
                                    assert(merged_vars@[c] is None);
                                }
                            }
                        }
                    }
                }
            },
        }
    }

    /// Creates `num` fresh public input cells, each reading its own slot of
    /// the public input section and pinned to its own constraint row at the
    /// top of the constraint table.
    pub fn add_public_inputs(&mut self, num: usize, span: Span) -> (var: Var)
        requires
            old(self).wf(),
            old(self).public_output is None,
            old(self).public_input_size + num <= usize::MAX,
        ensures
            final(self).wf(),
            final(self).public_output is None,
            final(self).num_vars() == old(self).num_vars() + num,
            final(self).public_input_size == old(self).public_input_size + num,
            final(self).private_input_indices@ == old(self).private_input_indices@,
            final(self).cached_constants@ == old(self).cached_constants@,
            final(self).pending_generic_gate == old(self).pending_generic_gate,
            final(self).double_generic_gate_optimization == old(self).double_generic_gate_optimization,
            final(self).finalized == old(self).finalized,
            final(self).gates@.len() == old(self).gates@.len() + num,
            forall|i: int|
                0 <= i < old(self).witness_vars@.len() ==> final(self).witness_vars@[i] == old(self).witness_vars@[i],
            forall|i: int|
                0 <= i < old(self).num_vars() && final(self).settled(i) ==> old(self).settled(i),
            var.cvars@.len() == num,
            var.span == span,
            forall|i: int|
                0 <= i < num ==> match #[trigger] var.cvars@[i] {
                    ConstOrCell::Cell(cv) => cv.index == old(self).num_vars() + i && final(self).witness_vars@[cv.index as int] == Value::PublicInput(
                        (old(self).public_input_size + i) as usize,
                    ),
                    ConstOrCell::Const(_) => false,
                },
    {
        let ghost pre = *old(self);
        let mut cvars: Vec<ConstOrCell> = Vec::new();
        let mut k: usize = 0;
        while k < num
            invariant
                k <= num,
                pre.wf(),
                pre.public_output is None,
                pre.public_input_size + num <= usize::MAX,
                self.wf(),
                self.public_output is None,
                self.num_vars() == pre.num_vars() + k,
                self.public_input_size == pre.public_input_size + k,
                forall|i: int|
                    0 <= i < pre.num_vars() && self.settled(i) ==> pre.settled(i),
                self.private_input_indices@ == pre.private_input_indices@,
                self.cached_constants@ == pre.cached_constants@,
                self.pending_generic_gate == pre.pending_generic_gate,
                self.double_generic_gate_optimization == pre.double_generic_gate_optimization,
                self.finalized == pre.finalized,
                self.gates@.len() == pre.gates@.len() + k,
                forall|i: int|
                    0 <= i < pre.witness_vars@.len() ==> self.witness_vars@[i]
                        == pre.witness_vars@[i],
                cvars@.len() == k,
                forall|i: int|
                    0 <= i < k ==> match #[trigger] cvars@[i] {
                        ConstOrCell::Cell(cv) => cv.index == pre.num_vars() + i
                            && self.witness_vars@[cv.index as int] == Value::PublicInput(
                            (pre.public_input_size + i) as usize,
                        ),
                        ConstOrCell::Const(_) => false,
                    },
            decreases num - k,
        {
            let ghost s0 = *self;
            let slot = self.public_input_size;
            self.public_input_size = self.public_input_size + 1;
            let ghost s1 = *self;
            proof {
                Self::lemma_wf_base_transfer(s0, s1);
            }
            let cvar = self.new_internal_var(Value::PublicInput(slot), span);
            let ghost s2 = *self;
            let gate_vars = vec![Some(cvar)];
            let ghost gate_vars_view = gate_vars@;
            self.add_gate("public input", GateKind::DoubleGeneric, gate_vars, vec![1], span);
            cvars.push(ConstOrCell::Cell(cvar));
            proof {
                let s3 = *self;
                assert forall|i: int|
                    0 <= i < pre.num_vars() && s3.settled(i) implies pre.settled(i) by {
                    if s3.occurs_in_rows(i) || s3.pending_contains(i) {
                        assert(s2.occurs_in_rows(i) || row_has(gate_vars_view, i)
                            || s2.pending_contains(i));
                        if row_has(gate_vars_view, i) {
                            let c = choose|c: int|
                                0 <= c < gate_vars_view.len() && match #[trigger] gate_vars_view[c] {
                                    Some(cv) => cv.index == i,
                                    None => false,
                                };
                            assert(false);
                        }
                        assert(s2.settled(i));
                        assert(s1.settled(i));
                        if s1.occurs_in_rows(i) {
                            Self::lemma_occurs_same_rows(s1, s0, i);
                        }
                        assert(s0.settled(i));
                    }
                }
                assert forall|i: int| 0 <= i < s3.num_vars() implies s3.covered(i) by {
                    if i < s1.num_vars() {
                        Self::lemma_covered_preserved(s0, s1, i);
                    } else {
                        assert(s3.occurs_in_rows(i));
                    }
                }
                assert forall|i: int|
                    0 <= i < s3.num_vars() implies match #[trigger] s3.witness_vars@[i] {
                    Value::PublicInput(sl) => sl < s3.pub_in_count(),
                    Value::PrivateInput(sl) => sl < s3.private_input_indices@.len(),
                    _ => true,
                } by {
                    if i < s0.num_vars() {
                        assert(s3.witness_vars@[i] == s0.witness_vars@[i]);
                    } else {
                        assert(s3.witness_vars@[i] == Value::PublicInput(slot));
                    }
                }
                assert forall|j: int|
                    0 <= j < s3.cached_constants@.len() implies s3.occurs_in_rows(
                    (#[trigger] s3.cached_constants@[j]).1.index as int,
                ) || s3.pending_contains(s3.cached_constants@[j].1.index as int) by {
                    let e = s3.cached_constants@[j];
                    assert(s0.cached_constants@[j] == e);
                    let i = e.1.index as int;
                    if s0.occurs_in_rows(i) {
                        Self::lemma_occurs_same_rows(s0, s1, i);
                        Self::lemma_occurs_same_rows(s1, s2, i);
                        Self::lemma_occurs_rows_extended(s2, s3, i);
                    }
                }
            }
            k += 1;
        }
        Var::new(cvars, span)
    }

    /// Creates `num` fresh private input cells, each reading its own slot of
    /// the private inputs.  No constraint row is added: a private input that
    /// never reaches a row is reported at finalization.
    pub fn add_private_inputs(&mut self, num: usize, span: Span) -> (var: Var)
        requires
            old(self).wf(),
            old(self).private_input_indices@.len() + num <= usize::MAX,
        ensures
            final(self).wf(),
            final(self).num_vars() == old(self).num_vars() + num,
            final(self).public_input_size == old(self).public_input_size,
            final(self).public_output == old(self).public_output,
            final(self).cached_constants@ == old(self).cached_constants@,
            final(self).pending_generic_gate == old(self).pending_generic_gate,
            final(self).double_generic_gate_optimization == old(self).double_generic_gate_optimization,
            final(self).finalized == old(self).finalized,
            final(self).gates@ == old(self).gates@,
            final(self).rows_of_vars@ == old(self).rows_of_vars@,
            final(self).private_input_indices@.len() == old(self).private_input_indices@.len()
                + num,
            forall|i: int|
                0 <= i < old(self).private_input_indices@.len() ==> final(self).private_input_indices@[i] == old(self).private_input_indices@[i],
            forall|i: int|
                0 <= i < num ==> #[trigger] final(self).private_input_indices@[old(self).private_input_indices@.len() + i] == old(self).num_vars() + i,
            forall|i: int|
                0 <= i < old(self).witness_vars@.len() ==> final(self).witness_vars@[i] == old(self).witness_vars@[i],
            forall|i: int| final(self).settled(i) ==> old(self).settled(i),
            forall|i: int|
                old(self).num_vars() <= i < final(self).num_vars() ==> !final(self).settled(i),
            var.cvars@.len() == num,
            var.span == span,
            forall|i: int|
                0 <= i < num ==> match #[trigger] var.cvars@[i] {
                    ConstOrCell::Cell(cv) => cv.index == old(self).num_vars() + i && final(self).witness_vars@[cv.index as int] == Value::PrivateInput(
                        (old(self).private_input_indices@.len() + i) as usize,
                    ),
                    ConstOrCell::Const(_) => false,
                },
    {
        let ghost pre = *old(self);
        let mut cvars: Vec<ConstOrCell> = Vec::new();
        let mut k: usize = 0;
        while k < num
            invariant
                k <= num,
                pre.wf(),
                pre.private_input_indices@.len() + num <= usize::MAX,
                self.wf(),
                self.num_vars() == pre.num_vars() + k,
                self.public_input_size == pre.public_input_size,
                self.public_output == pre.public_output,
                self.cached_constants@ == pre.cached_constants@,
                self.pending_generic_gate == pre.pending_generic_gate,
                self.double_generic_gate_optimization == pre.double_generic_gate_optimization,
                self.finalized == pre.finalized,
                self.gates@ == pre.gates@,
                self.rows_of_vars@ == pre.rows_of_vars@,
                forall|i: int| self.settled(i) ==> pre.settled(i),
                forall|i: int| pre.num_vars() <= i < self.num_vars() ==> !self.settled(i),
                self.private_input_indices@.len() == pre.private_input_indices@.len() + k,
                forall|i: int|
                    0 <= i < pre.private_input_indices@.len() ==> self.private_input_indices@[i]
                        == pre.private_input_indices@[i],
                forall|i: int|
                    0 <= i < k ==> #[trigger] self.private_input_indices@[pre.private_input_indices@.len() + i] == pre.num_vars() + i,
                forall|i: int|
                    0 <= i < pre.witness_vars@.len() ==> self.witness_vars@[i]
                        == pre.witness_vars@[i],
                cvars@.len() == k,
                forall|i: int|
                    0 <= i < k ==> match #[trigger] cvars@[i] {
                        ConstOrCell::Cell(cv) => cv.index == pre.num_vars() + i
                            && self.witness_vars@[cv.index as int] == Value::PrivateInput(
                            (pre.private_input_indices@.len() + i) as usize,
                        ),
                        ConstOrCell::Const(_) => false,
                    },
            decreases num - k,
        {
            let ghost s0 = *self;
            let slot = self.private_input_indices.len();
            let cvar = self.new_internal_var(Value::PrivateInput(slot), span);
            let ghost s1 = *self;
            self.private_input_indices.push(cvar.index);
            cvars.push(ConstOrCell::Cell(cvar));
            proof {
                let s2 = *self;
                assert forall|j: int|
                    0 <= j < s2.private_input_indices@.len() implies (
                #[trigger] s2.private_input_indices@[j]) < s2.witness_vars@.len() by {
                    if j < s0.private_input_indices@.len() {
                        assert(s2.private_input_indices@[j] == s0.private_input_indices@[j]);
                    }
                }
                Self::lemma_wf_base_transfer(s1, s2);
                assert forall|i: int| s2.settled(i) implies pre.settled(i) by {
                    if s2.occurs_in_rows(i) {
                        Self::lemma_occurs_same_rows(s2, s1, i);
                    }
                    assert(s1.settled(i));
                    assert(s0.settled(i));
                }
                assert forall|i: int|
                    pre.num_vars() <= i < s2.num_vars() implies !s2.settled(i) by {
                    assert forall|r2: int, c2: int|
                        0 <= r2 < s2.rows_of_vars@.len() && 0 <= c2
                            < s2.rows_of_vars@[r2]@.len() implies match #[trigger] s2.rows_of_vars@[r2]@[c2] {
                        Some(cv) => cv.index < i,
                        None => true,
                    } by {
                        assert(s2.rows_of_vars@[r2] == pre.rows_of_vars@[r2]);
                        assert(match pre.rows_of_vars@[r2]@[c2] {
                            Some(cv) => cv.index < pre.num_vars(),
                            None => true,
                        });
                    }
                    s2.lemma_fresh_not_in_rows(i);
                    if s2.pending_contains(i) {
                        match s2.pending_generic_gate {
                            Some(p) => {
                                let j = choose|j: int|
                                    0 <= j < p.vars@.len() && match #[trigger] p.vars@[j] {
                                        Some(cv) => cv.index == i,
                                        None => false,
                                    };
                                assert(pre.pending_wf());
                                assert(false);
                            },
                            None => {},
                        }
                    }
                }
                assert forall|i: int| 0 <= i < s2.num_vars() implies s2.covered(i) by {
                    if i < s0.num_vars() {
                        assert(s0.covered(i));
                        if s0.occurs_in_rows(i) {
                            Self::lemma_occurs_same_rows(s0, s2, i);
                        } else if s0.is_private(i) {
                            let j = choose|j: int|
                                0 <= j < s0.private_input_indices@.len()
                                    && #[trigger] s0.private_input_indices@[j] == i;
                            assert(s2.private_input_indices@[j] == i);
                        }
                    } else {
                        assert(s2.private_input_indices@[s2.private_input_indices@.len() - 1]
                            == i);
                        assert(s2.is_private(i));
                    }
                }
                assert forall|i: int|
                    0 <= i < s2.num_vars() implies match #[trigger] s2.witness_vars@[i] {
                    Value::PublicInput(sl) => sl < s2.pub_in_count(),
                    Value::PrivateInput(sl) => sl < s2.private_input_indices@.len(),
                    _ => true,
                } by {
                    if i < s0.num_vars() {
                        assert(s2.witness_vars@[i] == s0.witness_vars@[i]);
                    } else {
                        assert(s2.witness_vars@[i] == Value::PrivateInput(slot));
                    }
                }
                assert forall|j: int|
                    0 <= j < s2.cached_constants@.len() implies s2.occurs_in_rows(
                    (#[trigger] s2.cached_constants@[j]).1.index as int,
                ) || s2.pending_contains(s2.cached_constants@[j].1.index as int) by {
                    let e = s2.cached_constants@[j];
                    assert(s0.cached_constants@[j] == e);
                    let i = e.1.index as int;
                    if s0.occurs_in_rows(i) {
                        Self::lemma_occurs_same_rows(s0, s2, i);
                    }
                }
                assert forall|j: int|
                    0 <= j < s2.private_input_indices@.len() implies (
                #[trigger] s2.private_input_indices@[j]) < s2.witness_vars@.len() by {
                    if j < s0.private_input_indices@.len() {
                        assert(s2.private_input_indices@[j] == s0.private_input_indices@[j]);
                    }
                }
            }
            k += 1;
        }
        Var::new(cvars, span)
    }

    /// Reserves `num` public output cells at the tail of the public input
    /// section, each pinned to its own row; their defining variables are
    /// recorded once the body's return statement is compiled.
    pub fn add_public_outputs(&mut self, num: usize, span: Span) -> (var: Var)
        requires
            old(self).wf(),
            old(self).public_output is None,
            old(self).public_input_size + num <= usize::MAX,
        ensures
            final(self).wf(),
            final(self).num_vars() == old(self).num_vars() + num,
            final(self).public_input_size == old(self).public_input_size + num,
            final(self).pub_in_count() == old(self).pub_in_count(),
            final(self).private_input_indices@ == old(self).private_input_indices@,
            final(self).cached_constants@ == old(self).cached_constants@,
            final(self).pending_generic_gate == old(self).pending_generic_gate,
            final(self).double_generic_gate_optimization == old(self).double_generic_gate_optimization,
            final(self).finalized == old(self).finalized,
            final(self).gates@.len() == old(self).gates@.len() + num,
            forall|i: int|
                0 <= i < old(self).witness_vars@.len() ==> final(self).witness_vars@[i] == old(self).witness_vars@[i],
            forall|i: int|
                0 <= i < old(self).num_vars() && final(self).settled(i) ==> old(self).settled(i),
            var.cvars@.len() == num,
            var.span == span,
            final(self).public_output matches Some(v) && v.cvars@ == var.cvars@ && v.span == span,
            forall|i: int|
                0 <= i < num ==> match #[trigger] var.cvars@[i] {
                    ConstOrCell::Cell(cv) => cv.index == old(self).num_vars() + i && final(self).witness_vars@[cv.index as int] == Value::PublicOutput(None),
                    ConstOrCell::Const(_) => false,
                },
    {
        let ghost pre = *old(self);
        let mut cvars: Vec<ConstOrCell> = Vec::new();
        let mut out_cvars: Vec<ConstOrCell> = Vec::new();
        let mut k: usize = 0;
        while k < num
            invariant
                k <= num,
                pre.wf(),
                pre.public_output is None,
                pre.public_input_size + num <= usize::MAX,
                self.wf(),
                self.public_output is None,
                self.num_vars() == pre.num_vars() + k,
                self.public_input_size == pre.public_input_size,
                out_cvars@ == cvars@,
                forall|i: int|
                    0 <= i < pre.num_vars() && self.settled(i) ==> pre.settled(i),
                self.private_input_indices@ == pre.private_input_indices@,
                self.cached_constants@ == pre.cached_constants@,
                self.pending_generic_gate == pre.pending_generic_gate,
                self.double_generic_gate_optimization == pre.double_generic_gate_optimization,
                self.finalized == pre.finalized,
                self.gates@.len() == pre.gates@.len() + k,
                forall|i: int|
                    0 <= i < pre.witness_vars@.len() ==> self.witness_vars@[i]
                        == pre.witness_vars@[i],
                cvars@.len() == k,
                forall|i: int|
                    0 <= i < k ==> match #[trigger] cvars@[i] {
                        ConstOrCell::Cell(cv) => cv.index == pre.num_vars() + i
                            && self.witness_vars@[cv.index as int] == Value::PublicOutput(None),
                        ConstOrCell::Const(_) => false,
                    },
            decreases num - k,
        {
            let ghost s0 = *self;
            let cvar = self.new_internal_var(Value::PublicOutput(None), span);
            let ghost s2 = *self;
            let gate_vars = vec![Some(cvar)];
            let ghost gate_vars_view = gate_vars@;
            self.add_gate("public output", GateKind::DoubleGeneric, gate_vars, vec![1], span);
            cvars.push(ConstOrCell::Cell(cvar));
            out_cvars.push(ConstOrCell::Cell(cvar));
            proof {
                let s3 = *self;
                assert forall|i: int|
                    0 <= i < pre.num_vars() && s3.settled(i) implies pre.settled(i) by {
                    if s3.occurs_in_rows(i) || s3.pending_contains(i) {
                        assert(s2.occurs_in_rows(i) || row_has(gate_vars_view, i)
                            || s2.pending_contains(i));
                        if row_has(gate_vars_view, i) {
                            let c = choose|c: int|
                                0 <= c < gate_vars_view.len() && match #[trigger] gate_vars_view[c] {
                                    Some(cv) => cv.index == i,
                                    None => false,
                                };
                            assert(false);
                        }
                        assert(s2.settled(i));
                        assert(s0.settled(i));
                    }
                }
                assert forall|i: int| 0 <= i < s3.num_vars() implies s3.covered(i) by {
                    if i < s0.num_vars() {
                        Self::lemma_covered_preserved(s0, s2, i);
                    } else {
                        assert(s3.occurs_in_rows(i));
                    }
                }
                assert forall|i: int|
                    0 <= i < s3.num_vars() implies match #[trigger] s3.witness_vars@[i] {
                    Value::PublicInput(sl) => sl < s3.pub_in_count(),
                    Value::PrivateInput(sl) => sl < s3.private_input_indices@.len(),
                    _ => true,
                } by {
                    if i < s0.num_vars() {
                        assert(s3.witness_vars@[i] == s0.witness_vars@[i]);
                    } else {
                        assert(s3.witness_vars@[i] == Value::PublicOutput(None));
                    }
                }
                assert forall|j: int|
                    0 <= j < s3.cached_constants@.len() implies s3.occurs_in_rows(
                    (#[trigger] s3.cached_constants@[j]).1.index as int,
                ) || s3.pending_contains(s3.cached_constants@[j].1.index as int) by {
                    let e = s3.cached_constants@[j];
                    assert(s0.cached_constants@[j] == e);
                    let i = e.1.index as int;
                    if s0.occurs_in_rows(i) {
                        Self::lemma_occurs_same_rows(s0, s2, i);
                        Self::lemma_occurs_rows_extended(s2, s3, i);
                    }
                }
            }
            k += 1;
        }
        let ghost s3 = *self;
        let var = Var::new(cvars, span);
        let out = Var::new(out_cvars, span);
        self.public_input_size = self.public_input_size + num;
        self.public_output = Some(out);
        proof {
            let s4 = *self;
            assert(s4.out_count() == num);
            assert(s4.pub_in_count() == pre.public_input_size);
            assert forall|i: int| 0 <= i < s4.num_vars() implies s4.covered(i) by {
                Self::lemma_covered_preserved(s3, s4, i);
            }
            assert forall|i: int|
                0 <= i < pre.num_vars() && s4.settled(i) implies pre.settled(i) by {
                if s4.occurs_in_rows(i) {
                    Self::lemma_occurs_same_rows(s4, s3, i);
                }
                assert(s3.settled(i));
            }
            assert forall|i: int|
                0 <= i < s4.num_vars() implies match #[trigger] s4.witness_vars@[i] {
                Value::PublicInput(sl) => sl < s4.pub_in_count(),
                Value::PrivateInput(sl) => sl < s4.private_input_indices@.len(),
                _ => true,
            } by {
                assert(s4.witness_vars@[i] == s3.witness_vars@[i]);
            }
            assert forall|j: int|
                0 <= j < s4.cached_constants@.len() implies s4.occurs_in_rows(
                (#[trigger] s4.cached_constants@[j]).1.index as int,
            ) || s4.pending_contains(s4.cached_constants@[j].1.index as int) by {
                let e = s4.cached_constants@[j];
                assert(s3.cached_constants@[j] == e);
                let i = e.1.index as int;
                if s3.occurs_in_rows(i) {
                    Self::lemma_occurs_same_rows(s3, s4, i);
                }
            }
            assert forall|i: int| 0 <= i < s4.num_vars() implies s4.wiring_entry_wf(i) by {
                assert(s3.wiring_entry_wf(i));
                assert(s4.wiring@[i] == s3.wiring@[i]);
                let list = s4.wiring@[i]@;
                assert forall|kk: int| 0 <= kk < list.len() implies s4.cell_for(
                    (#[trigger] list[kk]).cell,
                    i,
                ) by {
                    assert(s3.cell_for(list[kk].cell, i));
                }
            }
            assert forall|i: int| 0 <= i < s4.num_vars() implies value_wf(
                s4.witness_vars@,
                i,
            ) by {
                assert(value_wf(s3.witness_vars@, i));
            }
            assert forall|j: int| 0 <= j < s4.cached_constants@.len() implies {
                let e = #[trigger] s4.cached_constants@[j];
                &&& e.0 < FIELD_MODULUS
                &&& e.1.index < s4.num_vars()
                &&& s4.witness_vars@[e.1.index as int] == Value::Constant(e.0)
            } by {
                assert(s4.cached_constants@[j] == s3.cached_constants@[j]);
            }
            assert(s4.pending_wf()) by {
                assert(s3.pending_wf());
            }
            assert(s4.output_wf()) by {
                assert forall|kk: int| 0 <= kk < num implies match #[trigger] cvars@[kk] {
                    ConstOrCell::Cell(cv) => cv.index < s4.num_vars()
                        && s4.witness_vars@[cv.index as int] is PublicOutput,
                    ConstOrCell::Const(_) => false,
                } by {}
            }
        }
        var
    }

    /// Whether some cached entry carries `value`.
    pub open spec fn cache_has(self, value: u64) -> bool {
        exists|j: int|
            0 <= j < self.cached_constants@.len() && (#[trigger] self.cached_constants@[j]).0
                == value
    }

    /// Returns a cell variable constrained to the given constant.  If one is
    /// cached (and hence already constrained), it is returned as is and the
    /// session is left entirely unchanged; otherwise a fresh variable is
    /// allocated, pinned by one logical generic gate, and cached.
    pub fn add_constant(&mut self, label: &'static str, value: u64, span: Span) -> (cvar: CellVar)
        requires
            old(self).wf(),
            value < FIELD_MODULUS,
        ensures
            final(self).wf(),
            old(self).cache_has(value) ==> *final(self) == *old(self),
            forall|j: int|
                0 <= j < old(self).cached_constants@.len() && (#[trigger] old(
                    self,
                ).cached_constants@[j]).0 == value ==> cvar == old(self).cached_constants@[j].1,
            !old(self).cache_has(value) ==> {
                &&& final(self).witness_vars@ == old(self).witness_vars@.push(
                    Value::Constant(value),
                )
                &&& cvar.index == old(self).num_vars()
                &&& final(self).cached_constants@ == old(self).cached_constants@.push(
                    (value, cvar),
                )
                &&& final(self).public_input_size == old(self).public_input_size
                &&& final(self).public_output == old(self).public_output
                &&& final(self).private_input_indices@ == old(self).private_input_indices@
                &&& final(self).finalized == old(self).finalized
                &&& final(self).double_generic_gate_optimization == old(
                    self,
                ).double_generic_gate_optimization
            },
            cvar.index < final(self).num_vars(),
            final(self).witness_vars@[cvar.index as int] == Value::Constant(value),
            final(self).cache_has(value),
            final(self).num_vars() >= old(self).num_vars(),
            forall|i: int| old(self).settled(i) ==> final(self).settled(i),
            forall|i: int|
                0 <= i < old(self).num_vars() && final(self).settled(i) ==> old(self).settled(i),
            final(self).settled(cvar.index as int),
    {
        let ghost pre = *old(self);
        let n = self.cached_constants.len();
        let mut j: usize = 0;
        while j < n
            invariant
                *self == pre,
                pre.wf(),
                n == self.cached_constants@.len(),
                j <= n,
                forall|t: int| 0 <= t < j ==> (#[trigger] self.cached_constants@[t]).0 != value,
            decreases n - j,
        {
            let entry = self.cached_constants[j];
            if entry.0 == value {
                proof {
                    assert(entry == pre.cached_constants@[j as int]);
                    assert forall|t: int|
                        0 <= t < pre.cached_constants@.len() && (#[trigger] pre.cached_constants@[
                        t]).0 == value implies entry.1 == pre.cached_constants@[t].1 by {
                        if t < j as int {
                            assert(self.cached_constants@[t].0 != value);
                            assert(false);
                        } else if t > j as int {
                            assert(pre.cached_constants@[j as int].0 != pre.cached_constants@[
                            t].0);
                        }
                    }
                }
                return entry.1;
            }
            j += 1;
        }
        proof {
            assert(!pre.cache_has(value));
        }
        let cvar = self.new_internal_var(Value::Constant(value), span);
        let ghost s1 = *self;
        self.cached_constants.push((value, cvar));
        let ghost s1b = *self;
        proof {
            assert forall|t: int| 0 <= t < s1b.cached_constants@.len() implies {
                let e = #[trigger] s1b.cached_constants@[t];
                &&& e.0 < FIELD_MODULUS
                &&& e.1.index < s1b.num_vars()
                &&& s1b.witness_vars@[e.1.index as int] == Value::Constant(e.0)
            } by {
                if t < s1.cached_constants@.len() {
                    assert(s1b.cached_constants@[t] == s1.cached_constants@[t]);
                    assert(s1.cached_constants@[t] == pre.cached_constants@[t]);
                }
            }
            assert forall|t1: int, t2: int|
                0 <= t1 < t2 < s1b.cached_constants@.len() implies (
            #[trigger] s1b.cached_constants@[t1]).0 != (#[trigger] s1b.cached_constants@[t2]).0 by {
                if t2 == s1b.cached_constants@.len() - 1 {
                    assert(s1b.cached_constants@[t1] == pre.cached_constants@[t1]);
                } else {
                    assert(s1b.cached_constants@[t1] == pre.cached_constants@[t1]);
                    assert(s1b.cached_constants@[t2] == pre.cached_constants@[t2]);
                }
            }
            assert(s1b.pending_wf()) by {
                assert(s1.pending_wf());
            }
            Self::lemma_wf_base_transfer_general(s1, s1b);
        }
        let neg = crate::field::field_neg(value);
        let gate_vars = vec![Some(cvar)];
        let ghost gate_vars_view = gate_vars@;
        self.add_generic_gate(label, gate_vars, vec![1, 0, 0, 0, neg], span);
        proof {
            let post = *self;
            assert forall|i: int| 0 <= i < post.num_vars() implies post.covered(i) by {
                if i < pre.num_vars() {
                    assert(pre.covered(i));
                    Self::lemma_covered_preserved(pre, s1b, i);
                    assert(s1b.covered(i) ==> s1b.occurs_in_rows(i) || s1b.pending_contains(i)
                        || s1b.is_private(i));
                    if s1b.occurs_in_rows(i) || s1b.pending_contains(i) {
                        assert(post.occurs_in_rows(i) || post.pending_contains(i));
                    } else {
                        let t = choose|t: int|
                            0 <= t < s1b.private_input_indices@.len()
                                && #[trigger] s1b.private_input_indices@[t] == i;
                        assert(post.private_input_indices@[t] == i);
                    }
                } else {
                    assert(post.occurs_in_rows(i) || post.pending_contains(i));
                }
            }
            assert forall|i: int|
                0 <= i < post.num_vars() implies match #[trigger] post.witness_vars@[i] {
                Value::PublicInput(sl) => sl < post.pub_in_count(),
                Value::PrivateInput(sl) => sl < post.private_input_indices@.len(),
                _ => true,
            } by {
                if i < pre.num_vars() {
                    assert(post.witness_vars@[i] == pre.witness_vars@[i]);
                } else {
                    assert(post.witness_vars@[i] == Value::Constant(value));
                }
            }
            assert forall|t: int|
                0 <= t < post.cached_constants@.len() implies post.occurs_in_rows(
                (#[trigger] post.cached_constants@[t]).1.index as int,
            ) || post.pending_contains(post.cached_constants@[t].1.index as int) by {
                let e = post.cached_constants@[t];
                assert(s1b.cached_constants@[t] == e);
                let i = e.1.index as int;
                if t < pre.cached_constants@.len() {
                    assert(pre.cached_constants@[t] == e);
                    if pre.occurs_in_rows(i) {
                        Self::lemma_occurs_same_rows(pre, s1b, i);
                    }
                    assert(s1b.occurs_in_rows(i) || s1b.pending_contains(i));
                    assert(post.occurs_in_rows(i) || post.pending_contains(i));
                } else {
                    assert(e.1 == cvar);
                    assert(post.occurs_in_rows(i) || post.pending_contains(i));
                }
            }
            assert(post.cache_has(value)) by {
                assert(post.cached_constants@[post.cached_constants@.len() - 1].0 == value);
            }
            assert forall|i: int| pre.settled(i) implies post.settled(i) by {
                if pre.occurs_in_rows(i) {
                    Self::lemma_occurs_same_rows(pre, s1b, i);
                }
                assert(s1b.settled(i));
                assert(post.occurs_in_rows(i) || post.pending_contains(i));
            }
            assert forall|i: int|
                0 <= i < pre.num_vars() && post.settled(i) implies pre.settled(i) by {
                assert(s1b.settled(i) || row_has(gate_vars_view, i));
                if row_has(gate_vars_view, i) {
                    let c = choose|c: int|
                        0 <= c < gate_vars_view.len() && match #[trigger] gate_vars_view[c] {
                            Some(cv) => cv.index == i,
                            None => false,
                        };
                    assert(false);
                }
                if s1b.occurs_in_rows(i) {
                    Self::lemma_occurs_same_rows(s1b, s1, i);
                }
                assert(s1.settled(i));
            }
        }
        cvar
    }
}

/// Extends one logical generic gate's wire slots with empty slots up to the
/// half-row width.
pub fn pad_generic_vars(vars: &mut Vec<Option<CellVar>>)
    requires
        old(vars)@.len() <= GENERIC_REGISTERS,
    ensures
        final(vars)@ == CircuitWriter::pad_vars(old(vars)@),
        final(vars)@.len() == GENERIC_REGISTERS,
{
    while vars.len() < GENERIC_REGISTERS
        invariant
            old(vars)@.len() <= vars@.len() <= GENERIC_REGISTERS,
            old(vars)@.is_prefix_of(vars@),
            forall|j: int| old(vars)@.len() <= j < vars@.len() ==> vars@[j] is None,
        decreases GENERIC_REGISTERS - vars@.len(),
    {
        vars.push(None);
    }
    proof {
        assert(vars@ =~= CircuitWriter::pad_vars(old(vars)@));
    }
}

/// Extends one logical generic gate's coefficients with zeros up to the
/// half width.
pub fn pad_generic_coeffs(coeffs: &mut Vec<u64>)
    requires
        old(coeffs)@.len() <= GENERIC_COEFFS,
    ensures
        final(coeffs)@ == CircuitWriter::pad_coeffs(old(coeffs)@),
        final(coeffs)@.len() == GENERIC_COEFFS,
{
    while coeffs.len() < GENERIC_COEFFS
        invariant
            old(coeffs)@.len() <= coeffs@.len() <= GENERIC_COEFFS,
            old(coeffs)@.is_prefix_of(coeffs@),
            forall|j: int| old(coeffs)@.len() <= j < coeffs@.len() ==> coeffs@[j] == 0u64,
        decreases GENERIC_COEFFS - coeffs@.len(),
    {
        coeffs.push(0);
    }
    proof {
        assert(coeffs@ =~= CircuitWriter::pad_coeffs(old(coeffs)@));
    }
}

} // verus!
