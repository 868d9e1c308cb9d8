//! The finalized circuit, witness generation, and the witness pre-check.
//!
//! Witness generation replays the value graph: constants resolve at once,
//! input slots read from the provided sequences, linear combinations resolve
//! their referenced cells first (memoized per call), and the public output
//! cells resolve through the cell recorded by the return statement, a value
//! graph edge installed only at the very end of compilation.

use vstd::prelude::*;

use crate::error::{Error, ErrorKind};
use crate::field::{fadd, fmul, field_add, field_mul, FIELD_MODULUS};
use crate::var::{value_wf, CellVar, ConstOrCell, Value};
use crate::writer::{CircuitWriter, NUM_REGISTERS};

verus! {

/// The value of cell variable `i` under the given value graph and input
/// sequences: the mathematical meaning of witness generation.  Deferred
/// output recipes resolve to zero here; their cells take their target's
/// value, see [`spec_cell`].
pub open spec fn spec_var(vals: Seq<Value>, pubs: Seq<u64>, privs: Seq<u64>, i: int) -> u64
    decreases i, 1int, 0int,
{
    if 0 <= i < vals.len() {
        match vals[i] {
            Value::Constant(c) => c,
            Value::PublicInput(s) => if s < pubs.len() {
                pubs[s as int]
            } else {
                0
            },
            Value::PrivateInput(s) => if s < privs.len() {
                privs[s as int]
            } else {
                0
            },
            Value::PublicOutput(_) => 0,
            Value::LinearCombination(terms, k) => fadd(
                spec_lc(vals, pubs, privs, terms@, 0, 0, i) as int,
                k as int,
            ) as u64,
        }
    } else {
        0
    }
}

/// Left fold of a linear combination's terms from index `j` with
/// accumulator `acc`, resolving each referenced cell.
pub open spec fn spec_lc(
    vals: Seq<Value>,
    pubs: Seq<u64>,
    privs: Seq<u64>,
    terms: Seq<(u64, CellVar)>,
    j: int,
    acc: u64,
    i: int,
) -> u64
    decreases i, 0int, terms.len() - j,
{
    if j < 0 || j >= terms.len() || i < 0 {
        acc
    } else {
        let t = if terms[j].1.index < i {
            spec_var(vals, pubs, privs, terms[j].1.index as int)
        } else {
            0
        };
        spec_lc(
            vals,
            pubs,
            privs,
            terms,
            j + 1,
            fadd(acc as int, fmul(terms[j].0 as int, t as int)) as u64,
            i,
        )
    }
}

/// The witness value of the cell at (`r`, `col`): zero for an empty slot,
/// the occupying variable's value, or, for a deferred output cell, the
/// value of the cell recorded by the return statement.
pub open spec fn spec_cell(
    c: CompiledCircuit,
    pubs: Seq<u64>,
    privs: Seq<u64>,
    r: int,
    col: int,
) -> u64 {
    let vals = c.circuit.witness_vars@;
    let row = c.circuit.rows_of_vars@[r]@;
    if 0 <= col < row.len() {
        match row[col] {
            Some(cv) => match vals[cv.index as int] {
                Value::PublicOutput(target) => match target {
                    Some(t) => spec_var(vals, pubs, privs, t.index as int),
                    None => 0,
                },
                _ => spec_var(vals, pubs, privs, cv.index as int),
            },
            None => 0,
        }
    } else {
        0
    }
}

/// Every memoized entry agrees with the mathematical value.
pub open spec fn memo_ok(
    memo: Seq<Option<u64>>,
    vals: Seq<Value>,
    pubs: Seq<u64>,
    privs: Seq<u64>,
) -> bool {
    forall|t: int|
        0 <= t < memo.len() ==> match #[trigger] memo[t] {
            Some(v) => v == spec_var(vals, pubs, privs, t) && v < FIELD_MODULUS,
            None => true,
        }
}

/// The output of one witness-generation pass.
#[derive(Debug)]
pub struct GeneratedWitness {
    /// One value per wire slot, row by row across the constraint table.
    pub all_witness: Vec<Vec<u64>>,
    /// The declared public inputs followed by the public outputs.
    pub full_public_inputs: Vec<u64>,
    /// The public outputs alone.
    pub public_outputs: Vec<u64>,
}

/// A finalized circuit: the compilation session frozen after the
/// finalization sanity pass.  It is immutable from here on; witness
/// generation only reads it, with a memo scoped to each call.
#[derive(Debug)]
pub struct CompiledCircuit {
    pub circuit: CircuitWriter,
}

impl CompiledCircuit {
    /// What finalization guarantees: the session invariants, no pending
    /// gate, every allocated variable standing in some row, and every
    /// reserved output cell pointing at the live cell that defines it.
    pub open spec fn wf(self) -> bool {
        &&& self.circuit.wf()
        &&& self.circuit.finalized
        &&& self.circuit.pending_generic_gate is None
        &&& forall|i: int| 0 <= i < self.circuit.num_vars() ==> self.circuit.occurs_in_rows(i)
        &&& match self.circuit.public_output {
            Some(v) => forall|k: int|
                0 <= k < v.cvars@.len() ==> match #[trigger] v.cvars@[k] {
                    ConstOrCell::Cell(cv) => match self.circuit.witness_vars@[cv.index as int] {
                        Value::PublicOutput(target) => match target {
                            Some(t) => t.index < self.circuit.num_vars()
                                && !self.circuit.witness_vars@[t.index as int].is_output(),
                            None => false,
                        },
                        _ => false,
                    },
                    ConstOrCell::Const(_) => false,
                },
            None => true,
        }
    }

    /// The sequence of public output values under the given inputs.
    pub open spec fn spec_outputs(self, pubs: Seq<u64>, privs: Seq<u64>) -> Seq<u64> {
        match self.circuit.public_output {
            Some(v) => Seq::new(
                v.cvars@.len(),
                |k: int|
                    match v.cvars@[k] {
                        ConstOrCell::Cell(cv) => match self.circuit.witness_vars@[
                            cv.index as int] {
                            Value::PublicOutput(target) => match target {
                                Some(t) => spec_var(
                                    self.circuit.witness_vars@,
                                    pubs,
                                    privs,
                                    t.index as int,
                                ),
                                None => 0,
                            },
                            _ => 0,
                        },
                        ConstOrCell::Const(_) => 0,
                    },
            ),
            None => Seq::empty(),
        }
    }

    /// Resolves one non-output cell variable, memoized per pass.
    fn compute_var(
        &self,
        pubs: &Vec<u64>,
        privs: &Vec<u64>,
        memo: &mut Vec<Option<u64>>,
        i: usize,
    ) -> (v: u64)
        requires
            self.wf(),
            pubs@.len() == self.circuit.pub_in_count(),
            privs@.len() == self.circuit.private_input_indices@.len(),
            forall|t: int| 0 <= t < pubs@.len() ==> #[trigger] pubs@[t] < FIELD_MODULUS,
            forall|t: int| 0 <= t < privs@.len() ==> #[trigger] privs@[t] < FIELD_MODULUS,
            i < self.circuit.num_vars(),
            !self.circuit.witness_vars@[i as int].is_output(),
            old(memo)@.len() == self.circuit.num_vars(),
            memo_ok(old(memo)@, self.circuit.witness_vars@, pubs@, privs@),
        ensures
            final(memo)@.len() == old(memo)@.len(),
            memo_ok(final(memo)@, self.circuit.witness_vars@, pubs@, privs@),
            v == spec_var(self.circuit.witness_vars@, pubs@, privs@, i as int),
            v < FIELD_MODULUS,
        decreases i,
    {
        if let Some(v) = memo[i] {
            return v;
        }
        let ghost vals = self.circuit.witness_vars@;
        let val = &self.circuit.witness_vars[i];
        proof {
            assert(value_wf(vals, i as int));
        }
        let v: u64 = match val {
            Value::Constant(c) => *c,
            Value::PublicInput(s) => pubs[*s],
            Value::PrivateInput(s) => privs[*s],
            Value::PublicOutput(_) => {
                proof {
                    assert(false);
                }
                0
            },
            Value::LinearCombination(terms, k) => {
                let nt = terms.len();
                let mut acc: u64 = 0;
                let mut j: usize = 0;
                while j < nt
                    invariant
                        self.wf(),
                        pubs@.len() == self.circuit.pub_in_count(),
                        privs@.len() == self.circuit.private_input_indices@.len(),
                        forall|t: int| 0 <= t < pubs@.len() ==> #[trigger] pubs@[t]
                            < FIELD_MODULUS,
                        forall|t: int| 0 <= t < privs@.len() ==> #[trigger] privs@[t]
                            < FIELD_MODULUS,
                        i < self.circuit.num_vars(),
                        vals == self.circuit.witness_vars@,
                        vals[i as int] matches Value::LinearCombination(t0, k0) && t0@ == terms@,
                        j <= nt,
                        nt == terms@.len(),
                        acc < FIELD_MODULUS,
                        memo@.len() == self.circuit.num_vars(),
                        memo_ok(memo@, vals, pubs@, privs@),
                        spec_lc(vals, pubs@, privs@, terms@, j as int, acc, i as int) == spec_lc(
                            vals,
                            pubs@,
                            privs@,
                            terms@,
                            0,
                            0,
                            i as int,
                        ),
                    decreases nt - j,
                {
                    proof {
                        assert(value_wf(vals, i as int));
                        let tj = terms@[j as int];
                        assert(tj.0 < FIELD_MODULUS && tj.1.index < i && !vals[tj.1.index as int].is_output());
                    }
                    let (coeff, cv) = terms[j];
                    let tv = self.compute_var(pubs, privs, memo, cv.index);
                    acc = field_add(acc, field_mul(coeff, tv));
                    j += 1;
                }
                field_add(acc, *k)
            },
        };
        memo[i] = Some(v);
        v
    }

    /// Generates the witness for the given public and private inputs: the
    /// full assignment table, the flattened full public input sequence, and
    /// the public outputs alone.  The result is a function of the circuit
    /// and the inputs only, so two runs on equal inputs agree exactly, and
    /// it exists for every input assignment matching the declared widths.
    pub fn generate_witness(&self, public_inputs: &Vec<u64>, private_inputs: &Vec<u64>) -> (r:
        Result<GeneratedWitness, Error>)
        requires
            self.wf(),
            forall|t: int| 0 <= t < public_inputs@.len() ==> #[trigger] public_inputs@[t]
                < FIELD_MODULUS,
            forall|t: int| 0 <= t < private_inputs@.len() ==> #[trigger] private_inputs@[t]
                < FIELD_MODULUS,
        ensures
            r is Ok <==> (public_inputs@.len() == self.circuit.pub_in_count()
                && private_inputs@.len() == self.circuit.private_input_indices@.len()),
            r matches Err(e) ==> e.kind == ErrorKind::MissingInput,
            r matches Ok(w) ==> {
                &&& w.all_witness@.len() == self.circuit.rows_of_vars@.len()
                &&& forall|r2: int|
                    0 <= r2 < w.all_witness@.len() ==> (#[trigger] w.all_witness@[r2])@.len()
                        == NUM_REGISTERS
                &&& forall|r2: int, c: int|
                    0 <= r2 < w.all_witness@.len() && 0 <= c < NUM_REGISTERS
                        ==> #[trigger] w.all_witness@[r2]@[c] == spec_cell(
                        *self,
                        public_inputs@,
                        private_inputs@,
                        r2,
                        c,
                    )
                &&& forall|r2: int, c: int|
                    0 <= r2 < w.all_witness@.len() && 0 <= c < NUM_REGISTERS
                        ==> #[trigger] w.all_witness@[r2]@[c] < FIELD_MODULUS
                &&& w.public_outputs@ == self.spec_outputs(public_inputs@, private_inputs@)
                &&& w.full_public_inputs@ == public_inputs@ + w.public_outputs@
                &&& w.full_public_inputs@.len() == self.circuit.public_input_size
                &&& forall|q: int|
                    0 <= q < w.full_public_inputs@.len() ==> #[trigger] w.full_public_inputs@[q]
                        < FIELD_MODULUS
            },
    {
        let ghost vals = self.circuit.witness_vars@;
        let n = self.circuit.witness_vars.len();
        // reject inputs that do not match the declared widths
        let declared_pub = match &self.circuit.public_output {
            Some(v) => self.circuit.public_input_size - v.cvars.len(),
            None => self.circuit.public_input_size,
        };
        if public_inputs.len() != declared_pub {
            return Err(Error::new(ErrorKind::MissingInput, crate::ast::Span::new(0, 0)));
        }
        if private_inputs.len() != self.circuit.private_input_indices.len() {
            return Err(Error::new(ErrorKind::MissingInput, crate::ast::Span::new(0, 0)));
        }
        let mut memo: Vec<Option<u64>> = Vec::new();
        let mut t: usize = 0;
        while t < n
            invariant
                t <= n,
                memo@.len() == t,
                forall|q: int| 0 <= q < t ==> memo@[q] is None,
            decreases n - t,
        {
            memo.push(None);
            t += 1;
        }
        let num_rows = self.circuit.rows_of_vars.len();
        let mut all_witness: Vec<Vec<u64>> = Vec::new();
        let mut r: usize = 0;
        while r < num_rows
            invariant
                self.wf(),
                vals == self.circuit.witness_vars@,
                n == self.circuit.num_vars(),
                public_inputs@.len() == self.circuit.pub_in_count(),
                private_inputs@.len() == self.circuit.private_input_indices@.len(),
                forall|t2: int| 0 <= t2 < public_inputs@.len() ==> #[trigger] public_inputs@[t2]
                    < FIELD_MODULUS,
                forall|t2: int| 0 <= t2 < private_inputs@.len() ==> #[trigger] private_inputs@[t2]
                    < FIELD_MODULUS,
                r <= num_rows,
                num_rows == self.circuit.rows_of_vars@.len(),
                memo@.len() == n,
                memo_ok(memo@, vals, public_inputs@, private_inputs@),
                all_witness@.len() == r,
                forall|r2: int|
                    0 <= r2 < r ==> (#[trigger] all_witness@[r2])@.len() == NUM_REGISTERS,
                forall|r2: int, c: int|
                    0 <= r2 < r && 0 <= c < NUM_REGISTERS ==> #[trigger] all_witness@[r2]@[c]
                        == spec_cell(*self, public_inputs@, private_inputs@, r2, c),
                forall|r2: int, c: int|
                    0 <= r2 < r && 0 <= c < NUM_REGISTERS ==> #[trigger] all_witness@[r2]@[c]
                        < FIELD_MODULUS,
            decreases num_rows - r,
        {
            let row_len = self.circuit.rows_of_vars[r].len();
            let mut row_vals: Vec<u64> = Vec::new();
            let mut c: usize = 0;
            while c < NUM_REGISTERS
                invariant
                    self.wf(),
                    vals == self.circuit.witness_vars@,
                    n == self.circuit.num_vars(),
                    public_inputs@.len() == self.circuit.pub_in_count(),
                    private_inputs@.len() == self.circuit.private_input_indices@.len(),
                    forall|t2: int|
                        0 <= t2 < public_inputs@.len() ==> #[trigger] public_inputs@[t2]
                            < FIELD_MODULUS,
                    forall|t2: int|
                        0 <= t2 < private_inputs@.len() ==> #[trigger] private_inputs@[t2]
                            < FIELD_MODULUS,
                    r < num_rows,
                    num_rows == self.circuit.rows_of_vars@.len(),
                    row_len == self.circuit.rows_of_vars@[r as int]@.len(),
                    c <= NUM_REGISTERS,
                    memo@.len() == n,
                    memo_ok(memo@, vals, public_inputs@, private_inputs@),
                    row_vals@.len() == c,
                    forall|c2: int| 0 <= c2 < c ==> #[trigger] row_vals@[c2] == spec_cell(
                        *self,
                        public_inputs@,
                        private_inputs@,
                        r as int,
                        c2,
                    ),
                    forall|c2: int| 0 <= c2 < c ==> #[trigger] row_vals@[c2] < FIELD_MODULUS,
                decreases NUM_REGISTERS - c,
            {
                let cell_val: u64 = if c < row_len {
                    let slot = self.circuit.rows_of_vars[r][c];
                    match slot {
                        Some(cv) => {
                            proof {
                                assert(value_wf(vals, cv.index as int));
                            }
                            let cval = &self.circuit.witness_vars[cv.index];
                            match cval {
                                Value::PublicOutput(target) => {
                                    match target {
                                        Some(tv) => self.compute_var(
                                            public_inputs,
                                            private_inputs,
                                            &mut memo,
                                            tv.index,
                                        ),
                                        None => 0,
                                    }
                                },
                                _ => self.compute_var(
                                    public_inputs,
                                    private_inputs,
                                    &mut memo,
                                    cv.index,
                                ),
                            }
                        },
                        None => 0,
                    }
                } else {
                    0
                };
                row_vals.push(cell_val);
                c += 1;
            }
            all_witness.push(row_vals);
            r += 1;
        }
        // resolve the public outputs last and flatten the full public input
        let mut public_outputs: Vec<u64> = Vec::new();
        match &self.circuit.public_output {
            Some(v) => {
                let nout = v.cvars.len();
                let mut k: usize = 0;
                while k < nout
                    invariant
                        self.wf(),
                        vals == self.circuit.witness_vars@,
                        n == self.circuit.num_vars(),
                        public_inputs@.len() == self.circuit.pub_in_count(),
                        private_inputs@.len() == self.circuit.private_input_indices@.len(),
                        forall|t2: int|
                            0 <= t2 < public_inputs@.len() ==> #[trigger] public_inputs@[t2]
                                < FIELD_MODULUS,
                        forall|t2: int|
                            0 <= t2 < private_inputs@.len() ==> #[trigger] private_inputs@[t2]
                                < FIELD_MODULUS,
                        self.circuit.public_output matches Some(v0) && v0.cvars@ == v.cvars@,
                        k <= nout,
                        nout == v.cvars@.len(),
                        memo@.len() == n,
                        memo_ok(memo@, vals, public_inputs@, private_inputs@),
                        public_outputs@.len() == k,
                        forall|k2: int| 0 <= k2 < k ==> #[trigger] public_outputs@[k2]
                            == self.spec_outputs(public_inputs@, private_inputs@)[k2],
                        forall|k2: int| 0 <= k2 < k ==> #[trigger] public_outputs@[k2]
                            < FIELD_MODULUS,
                    decreases nout - k,
                {
                    let out_val: u64 = match v.cvars[k] {
                        ConstOrCell::Cell(cv) => {
                            let cval = &self.circuit.witness_vars[cv.index];
                            match cval {
                                Value::PublicOutput(target) => {
                                    match target {
                                        Some(tv) => self.compute_var(
                                            public_inputs,
                                            private_inputs,
                                            &mut memo,
                                            tv.index,
                                        ),
                                        None => {
                                            proof {
                                                assert(false);
                                            }
                                            0
                                        },
                                    }
                                },
                                _ => {
                                    proof {
                                        assert(false);
                                    }
                                    0
                                },
                            }
                        },
                        ConstOrCell::Const(_) => {
                            proof {
                                assert(false);
                            }
                            0
                        },
                    };
                    public_outputs.push(out_val);
                    k += 1;
                }
            },
            None => {},
        }
        let mut full_public_inputs: Vec<u64> = Vec::new();
        let npub = public_inputs.len();
        let mut k: usize = 0;
        while k < npub
            invariant
                k <= npub,
                npub == public_inputs@.len(),
                full_public_inputs@.len() == k,
                forall|t2: int| 0 <= t2 < public_inputs@.len() ==> #[trigger] public_inputs@[t2]
                    < FIELD_MODULUS,
                forall|k2: int| 0 <= k2 < k ==> #[trigger] full_public_inputs@[k2]
                    == public_inputs@[k2],
                forall|k2: int| 0 <= k2 < k ==> #[trigger] full_public_inputs@[k2]
                    < FIELD_MODULUS,
            decreases npub - k,
        {
            full_public_inputs.push(public_inputs[k]);
            k += 1;
        }
        let nout = public_outputs.len();
        let mut k2: usize = 0;
        while k2 < nout
            invariant
                k2 <= nout,
                nout == public_outputs@.len(),
                npub == public_inputs@.len(),
                full_public_inputs@.len() == npub + k2,
                forall|q: int| 0 <= q < nout ==> #[trigger] public_outputs@[q] < FIELD_MODULUS,
                forall|q: int| 0 <= q < npub ==> #[trigger] full_public_inputs@[q]
                    == public_inputs@[q],
                forall|q: int|
                    0 <= q < k2 ==> #[trigger] full_public_inputs@[npub + q] == public_outputs@[q],
                forall|q: int| 0 <= q < npub + k2 ==> #[trigger] full_public_inputs@[q]
                    < FIELD_MODULUS,
            decreases nout - k2,
        {
            full_public_inputs.push(public_outputs[k2]);
            k2 += 1;
        }
        proof {
            assert forall|q: int|
                0 <= q < full_public_inputs@.len() implies full_public_inputs@[q] == (
            public_inputs@ + public_outputs@)[q] by {
                if q >= npub {
                    assert(full_public_inputs@[npub + (q - npub)] == public_outputs@[q - npub]);
                }
            }
            assert(full_public_inputs@ =~= public_inputs@ + public_outputs@);
            let souts = self.spec_outputs(public_inputs@, private_inputs@);
            assert(public_outputs@.len() == souts.len());
            assert forall|q: int| 0 <= q < souts.len() implies public_outputs@[q] == souts[q] by {}
            assert(public_outputs@ =~= souts);
        }
        Ok(GeneratedWitness { all_witness, full_public_inputs, public_outputs })
    }

    /// Checks that a witness satisfies the compiled constraints against the
    /// claimed full public inputs: public rows must hold the claimed values,
    /// every other double-generic row's two constraint polynomials must
    /// vanish, and all wired cells must agree.
    pub fn check_witness(&self, witness: &Vec<Vec<u64>>, full_public: &Vec<u64>) -> (ok: bool)
        requires
            self.wf(),
            witness@.len() == self.circuit.gates@.len(),
            forall|r: int| 0 <= r < witness@.len() ==> (#[trigger] witness@[r])@.len()
                == NUM_REGISTERS,
            forall|r: int, c: int|
                0 <= r < witness@.len() && 0 <= c < witness@[r]@.len()
                    ==> (#[trigger] witness@[r]@[c]) < FIELD_MODULUS,
            full_public@.len() == self.circuit.public_input_size,
        ensures
            ok == spec_satisfied(*self, witness@, full_public@),
    {
        let num_rows = witness.len();
        let pis = self.circuit.public_input_size;
        let mut r: usize = 0;
        while r < num_rows
            invariant
                self.wf(),
                num_rows == witness@.len(),
                witness@.len() == self.circuit.gates@.len(),
                forall|r2: int| 0 <= r2 < witness@.len() ==> (#[trigger] witness@[r2])@.len()
                    == NUM_REGISTERS,
                forall|r2: int, c: int|
                    0 <= r2 < witness@.len() && 0 <= c < witness@[r2]@.len()
                        ==> (#[trigger] witness@[r2]@[c]) < FIELD_MODULUS,
                full_public@.len() == self.circuit.public_input_size,
                pis == self.circuit.public_input_size,
                r <= num_rows,
                forall|r2: int|
                    0 <= r2 < r && r2 < pis ==> #[trigger] witness@[r2]@[0] == full_public@[r2],
                forall|r2: int|
                    pis <= r2 < r ==> gate_ok(
                        (#[trigger] self.circuit.gates@[r2]).coeffs@,
                        witness@[r2]@,
                    ),
            decreases num_rows - r,
        {
            if r < pis {
                let got = witness[r][0];
                if got != full_public[r] {
                    proof {
                        assert(!spec_satisfied(*self, witness@, full_public@));
                    }
                    return false;
                }
            } else {
                let gate = &self.circuit.gates[r];
                let h1 = eval_generic_half(&gate.coeffs, &witness[r], 0, 0);
                let h2 = eval_generic_half(&gate.coeffs, &witness[r], 5, 3);
                if h1 != 0 || h2 != 0 {
                    proof {
                        assert(!gate_ok(self.circuit.gates@[r as int].coeffs@, witness@[r as int]@));
                        assert(!spec_satisfied(*self, witness@, full_public@));
                    }
                    return false;
                }
            }
            r += 1;
        }
        // copy constraints: all cells of a wired class must agree
        let nv = self.circuit.wiring.len();
        let mut v: usize = 0;
        while v < nv
            invariant
                self.wf(),
                num_rows == witness@.len(),
                witness@.len() == self.circuit.gates@.len(),
                forall|r2: int| 0 <= r2 < witness@.len() ==> (#[trigger] witness@[r2])@.len()
                    == NUM_REGISTERS,
                forall|r2: int, c: int|
                    0 <= r2 < witness@.len() && 0 <= c < witness@[r2]@.len()
                        ==> (#[trigger] witness@[r2]@[c]) < FIELD_MODULUS,
                full_public@.len() == self.circuit.public_input_size,
                nv == self.circuit.wiring@.len(),
                v <= nv,
                forall|r2: int|
                    0 <= r2 < witness@.len() && r2 < self.circuit.public_input_size
                        ==> #[trigger] witness@[r2]@[0] == full_public@[r2],
                forall|r2: int|
                    self.circuit.public_input_size <= r2 < witness@.len() ==> gate_ok(
                        (#[trigger] self.circuit.gates@[r2]).coeffs@,
                        witness@[r2]@,
                    ),
                forall|v2: int, k: int|
                    0 <= v2 < v && self.circuit.wiring@[v2]@.len() >= 2 && 0 <= k
                        < self.circuit.wiring@[v2]@.len() ==> cell_value(
                        witness@,
                        (#[trigger] self.circuit.wiring@[v2]@[k]).cell,
                    ) == cell_value(witness@, self.circuit.wiring@[v2]@[0].cell),
            decreases nv - v,
        {
            let list_len = self.circuit.wiring[v].len();
            if list_len >= 2 {
                proof {
                    assert(self.circuit.wiring_entry_wf(v as int));
                    assert(self.circuit.cell_for(self.circuit.wiring@[v as int]@[0].cell, v as int));
                }
                let first = self.circuit.wiring[v][0].cell;
                let base = witness[first.row][first.col];
                let mut k: usize = 1;
                while k < list_len
                    invariant
                        self.wf(),
                        num_rows == witness@.len(),
                        witness@.len() == self.circuit.gates@.len(),
                        forall|r2: int|
                            0 <= r2 < witness@.len() ==> (#[trigger] witness@[r2])@.len()
                                == NUM_REGISTERS,
                        nv == self.circuit.wiring@.len(),
                        v < nv,
                        list_len == self.circuit.wiring@[v as int]@.len(),
                        list_len >= 2,
                        1 <= k <= list_len,
                        first == self.circuit.wiring@[v as int]@[0].cell,
                        base == cell_value(witness@, first),
                        forall|k2: int|
                            0 <= k2 < k ==> cell_value(
                                witness@,
                                (#[trigger] self.circuit.wiring@[v as int]@[k2]).cell,
                            ) == base,
                    decreases list_len - k,
                {
                    proof {
                        assert(self.circuit.wiring_entry_wf(v as int));
                        assert(self.circuit.cell_for(
                            self.circuit.wiring@[v as int]@[k as int].cell,
                            v as int,
                        ));
                    }
                    let cell = self.circuit.wiring[v][k].cell;
                    let got = witness[cell.row][cell.col];
                    if got != base {
                        proof {
                            assert(!spec_satisfied(*self, witness@, full_public@));
                        }
                        return false;
                    }
                    k += 1;
                }
            }
            v += 1;
        }
        proof {
            assert(spec_satisfied(*self, witness@, full_public@));
        }
        true
    }
}

/// The value a witness table holds at a cell position (zero out of range).
pub open spec fn cell_value(wit: Seq<Vec<u64>>, c: crate::writer::Cell) -> u64 {
    if c.row < wit.len() && c.col < wit[c.row as int]@.len() {
        wit[c.row as int]@[c.col as int]
    } else {
        0
    }
}

/// Coefficient or wire value getter with zero padding.
pub open spec fn at_or_zero(s: Seq<u64>, i: int) -> u64 {
    if 0 <= i < s.len() {
        s[i]
    } else {
        0
    }
}

/// One logical generic gate's constraint polynomial over its half of the
/// row: `c0*l + c1*r + c2*o + c3*l*r + c4`, reduced.
pub open spec fn spec_half_eval(coeffs: Seq<u64>, w: Seq<u64>, co: int, wo: int) -> int {
    fadd(
        fadd(
            fadd(
                fadd(
                    fmul(at_or_zero(coeffs, co) as int, at_or_zero(w, wo) as int),
                    fmul(at_or_zero(coeffs, co + 1) as int, at_or_zero(w, wo + 1) as int),
                ),
                fmul(at_or_zero(coeffs, co + 2) as int, at_or_zero(w, wo + 2) as int),
            ),
            fmul(
                at_or_zero(coeffs, co + 3) as int,
                fmul(at_or_zero(w, wo) as int, at_or_zero(w, wo + 1) as int),
            ),
        ),
        at_or_zero(coeffs, co + 4) as int,
    )
}

/// A double-generic row is satisfied when both of its halves' constraint
/// polynomials vanish.
pub open spec fn gate_ok(coeffs: Seq<u64>, w: Seq<u64>) -> bool {
    spec_half_eval(coeffs, w, 0, 0) == 0 && spec_half_eval(coeffs, w, 5, 3) == 0
}

/// Whether a witness table satisfies a compiled circuit against claimed
/// full public inputs: public rows hold the claimed values, all other rows'
/// constraints vanish, and all wired cells agree.
pub open spec fn spec_satisfied(
    c: CompiledCircuit,
    wit: Seq<Vec<u64>>,
    full_public: Seq<u64>,
) -> bool {
    &&& forall|r: int|
        0 <= r < wit.len() && r < c.circuit.public_input_size ==> #[trigger] wit[r]@[0]
            == full_public[r]
    &&& forall|r: int|
        c.circuit.public_input_size <= r < wit.len() ==> gate_ok(
            (#[trigger] c.circuit.gates@[r]).coeffs@,
            wit[r]@,
        )
    &&& forall|v: int, k: int|
        0 <= v < c.circuit.wiring@.len() && c.circuit.wiring@[v]@.len() >= 2 && 0 <= k
            < c.circuit.wiring@[v]@.len() ==> cell_value(
            wit,
            (#[trigger] c.circuit.wiring@[v]@[k]).cell,
        ) == cell_value(wit, c.circuit.wiring@[v]@[0].cell)
}

/// Evaluates one logical generic gate's constraint polynomial over one half
/// of a witness row.
pub fn eval_generic_half(coeffs: &Vec<u64>, w: &Vec<u64>, co: usize, wo: usize) -> (e: u64)
    requires
        forall|j: int| 0 <= j < coeffs@.len() ==> #[trigger] coeffs@[j] < FIELD_MODULUS,
        forall|j: int| 0 <= j < w@.len() ==> #[trigger] w@[j] < FIELD_MODULUS,
        co + 4 <= usize::MAX,
        wo + 2 <= usize::MAX,
    ensures
        e == spec_half_eval(coeffs@, w@, co as int, wo as int),
        e < FIELD_MODULUS,
{
    let c0 = coeff_or_zero(coeffs, co);
    let c1 = coeff_or_zero(coeffs, co + 1);
    let c2 = coeff_or_zero(coeffs, co + 2);
    let c3 = coeff_or_zero(coeffs, co + 3);
    let c4 = coeff_or_zero(coeffs, co + 4);
    let w0 = coeff_or_zero(w, wo);
    let w1 = coeff_or_zero(w, wo + 1);
    let w2 = coeff_or_zero(w, wo + 2);
    field_add(
        field_add(
            field_add(field_add(field_mul(c0, w0), field_mul(c1, w1)), field_mul(c2, w2)),
            field_mul(c3, field_mul(w0, w1)),
        ),
        c4,
    )
}

/// Reads an element, or zero past the end.
pub fn coeff_or_zero(s: &Vec<u64>, i: usize) -> (v: u64)
    requires
        forall|j: int| 0 <= j < s@.len() ==> #[trigger] s@[j] < FIELD_MODULUS,
    ensures
        v == at_or_zero(s@, i as int),
        v < FIELD_MODULUS,
{
    if i < s.len() {
        s[i]
    } else {
        0
    }
}

/// Double-generic packing is content-preserving.  The physical row merged
/// from two logical generic gates decodes into exactly the two padded
/// logical gates, each in its own half of the wire slots and coefficients;
/// and for cell values that agree half-for-half with the two unpacked rows,
/// the merged row's constraint is satisfied exactly when the two unpacked
/// rows' constraints are.
pub proof fn lemma_packing_content_preserving(
    v1: Seq<Option<CellVar>>,
    c1: Seq<u64>,
    v2: Seq<Option<CellVar>>,
    c2: Seq<u64>,
    w: Seq<u64>,
    w1: Seq<u64>,
    w2: Seq<u64>,
)
    requires
        v1.len() <= crate::writer::GENERIC_REGISTERS,
        v2.len() <= crate::writer::GENERIC_REGISTERS,
        c1.len() <= crate::writer::GENERIC_COEFFS,
        c2.len() <= crate::writer::GENERIC_COEFFS,
        forall|i: int| 0 <= i < 3 ==> at_or_zero(w, i) == at_or_zero(w1, i),
        forall|i: int| 0 <= i < 3 ==> at_or_zero(w, 3 + i) == at_or_zero(w2, i),
    ensures
        (CircuitWriter::pad_vars(v1) + CircuitWriter::pad_vars(v2)).subrange(0, 3)
            == CircuitWriter::pad_vars(v1),
        (CircuitWriter::pad_vars(v1) + CircuitWriter::pad_vars(v2)).subrange(3, 6)
            == CircuitWriter::pad_vars(v2),
        (CircuitWriter::pad_coeffs(c1) + CircuitWriter::pad_coeffs(c2)).subrange(0, 5)
            == CircuitWriter::pad_coeffs(c1),
        (CircuitWriter::pad_coeffs(c1) + CircuitWriter::pad_coeffs(c2)).subrange(5, 10)
            == CircuitWriter::pad_coeffs(c2),
        gate_ok(CircuitWriter::pad_coeffs(c1) + CircuitWriter::pad_coeffs(c2), w) <==> (gate_ok(
            c1,
            w1,
        ) && gate_ok(c2, w2)),
{
    let pv1 = CircuitWriter::pad_vars(v1);
    let pv2 = CircuitWriter::pad_vars(v2);
    let pc1 = CircuitWriter::pad_coeffs(c1);
    let pc2 = CircuitWriter::pad_coeffs(c2);
    let mc = pc1 + pc2;
    assert((pv1 + pv2).subrange(0, 3) =~= pv1);
    assert((pv1 + pv2).subrange(3, 6) =~= pv2);
    assert(mc.subrange(0, 5) =~= pc1);
    assert(mc.subrange(5, 10) =~= pc2);
    assert forall|i: int| 0 <= i < 5 implies at_or_zero(mc, i) == at_or_zero(c1, i) by {}
    assert forall|i: int| 0 <= i < 5 implies at_or_zero(mc, 5 + i) == at_or_zero(c2, i) by {}
    // the merged halves evaluate as the two logical gates' own constraints
    assert(spec_half_eval(mc, w, 0, 0) == spec_half_eval(c1, w1, 0, 0));
    assert(spec_half_eval(mc, w, 5, 3) == spec_half_eval(c2, w2, 0, 0));
    // an unpacked row's second half carries only zero coefficients
    assert(spec_half_eval(c1, w1, 5, 3) == 0) by {
        assert(at_or_zero(c1, 5) == 0 && at_or_zero(c1, 6) == 0 && at_or_zero(c1, 7) == 0
            && at_or_zero(c1, 8) == 0 && at_or_zero(c1, 9) == 0);
        lemma_zero_half(w1);
    }
    assert(spec_half_eval(c2, w2, 5, 3) == 0) by {
        lemma_zero_half(w2);
    }
}

/// A half whose five coefficients are all zero evaluates to zero.
pub proof fn lemma_zero_half(w: Seq<u64>)
    ensures
        forall|c: Seq<u64>|
            c.len() <= 5 ==> #[trigger] spec_half_eval(c, w, 5, 3) == 0,
{
    assert forall|c: Seq<u64>| c.len() <= 5 implies #[trigger] spec_half_eval(c, w, 5, 3)
        == 0 by {
        let p = FIELD_MODULUS as int;
        assert(fmul(0int, at_or_zero(w, 3) as int) == 0) by {
            assert(0int * at_or_zero(w, 3) as int == 0);
        }
        assert(fmul(0int, at_or_zero(w, 4) as int) == 0) by {
            assert(0int * at_or_zero(w, 4) as int == 0);
        }
        assert(fmul(0int, at_or_zero(w, 5) as int) == 0) by {
            assert(0int * at_or_zero(w, 5) as int == 0);
        }
        assert(fmul(0int, fmul(at_or_zero(w, 3) as int, at_or_zero(w, 4) as int)) == 0) by {
            assert(0int * fmul(at_or_zero(w, 3) as int, at_or_zero(w, 4) as int) == 0);
        }
        assert(fadd(0int, 0int) == 0);
    }
}

} // verus!
