//! Compilation orchestration: registering constants, allocating the entry
//! function's inputs and output, compiling the returned expression, flushing
//! the pending gate, and the finalization sanity pass.

use vstd::prelude::*;

use crate::ast::{
    arg_in_gate, expr_wf, module_wf, AttributeKind, Expr, FnArg, Function, Span, TyKind,
    TypedModule,
};
use crate::error::{Error, ErrorKind};
use crate::field::{field_add, field_neg, FIELD_MODULUS};
use crate::var::{value_wf, CellVar, ConstOrCell, Value, Var};
use crate::witness::CompiledCircuit;
use crate::writer::{
    generic_gate_submitted, row_has, CircuitWriter, GateKind, GENERIC_COEFFS, GENERIC_REGISTERS,
};

verus! {

/// Total field-element width of the first `upto` arguments.
pub open spec fn arg_width_sum(args: Seq<FnArg>, upto: int) -> int
    decreases upto,
{
    if upto <= 0 {
        0
    } else {
        arg_width_sum(args, upto - 1) + args[upto - 1].typ.kind.spec_size_of()
    }
}

pub proof fn lemma_arg_width_sum_mono(args: Seq<FnArg>, a: int, b: int)
    requires
        0 <= a <= b,
    ensures
        arg_width_sum(args, a) <= arg_width_sum(args, b),
    decreases b - a,
{
    if a < b {
        lemma_arg_width_sum_mono(args, a, b - 1);
    }
}

/// Total width of the public arguments among the first `upto`.
pub open spec fn pub_width_sum(args: Seq<FnArg>, upto: int) -> int
    decreases upto,
{
    if upto <= 0 {
        0
    } else {
        pub_width_sum(args, upto - 1) + if args[upto - 1].is_public() {
            args[upto - 1].typ.kind.spec_size_of() as int
        } else {
            0
        }
    }
}

/// Total width of the private arguments among the first `upto`.
pub open spec fn priv_width_sum(args: Seq<FnArg>, upto: int) -> int
    decreases upto,
{
    if upto <= 0 {
        0
    } else {
        priv_width_sum(args, upto - 1) + if !args[upto - 1].is_public() {
            args[upto - 1].typ.kind.spec_size_of() as int
        } else {
            0
        }
    }
}

/// The public and private widths split the total width, and neither is
/// negative.
pub proof fn lemma_width_sum_split(args: Seq<FnArg>, upto: int)
    requires
        0 <= upto,
    ensures
        pub_width_sum(args, upto) + priv_width_sum(args, upto) == arg_width_sum(args, upto),
        pub_width_sum(args, upto) >= 0,
        priv_width_sum(args, upto) >= 0,
    decreases upto,
{
    if upto > 0 {
        lemma_width_sum_split(args, upto - 1);
    }
}

/// Whether some argument carries an attribute other than the public marker.
pub open spec fn has_bad_attribute(args: Seq<FnArg>) -> bool {
    exists|i: int|
        0 <= i < args.len() && match (#[trigger] args[i]).attribute {
            Some(a) => !(a.kind is Pub),
            None => false,
        }
}

/// The outcome the compilation chain owes for a given module, checked in
/// this order: a missing entry function, an invalid argument attribute, an
/// unsupported return type, a missing or unexpected returned expression.
/// `None` means compilation reaches the finalization pass, where the only
/// remaining failure is a declared private input that never reached a row.
pub open spec fn early_outcome(m: TypedModule) -> Option<ErrorKind> {
    match m.main {
        None => Some(ErrorKind::NoMainFunction),
        Some(f) => if has_bad_attribute(f.sig.arguments@) {
            Some(ErrorKind::InvalidAttribute)
        } else if f.sig.return_type matches Some(t) && !(t.kind is Field) {
            Some(ErrorKind::UnsupportedType)
        } else if f.sig.return_type is Some && f.body is None {
            Some(ErrorKind::MissingReturn)
        } else if f.sig.return_type is None && f.body is Some {
            Some(ErrorKind::UnexpectedReturn)
        } else {
            None
        },
    }
}

/// Whether argument `j` is a private input that can never reach a
/// constraint row: a non-boolean argument that the returned expression
/// never uses as a direct addition operand.  Boolean arguments are always
/// pinned by their domain constraint, and zero-width arguments have no
/// cells to report.
pub open spec fn private_arg_unused(f: Function, j: int) -> bool {
    let kind = f.sig.arguments@[j].typ.kind;
    &&& !f.sig.arguments@[j].is_public()
    &&& !(kind is Bool)
    &&& kind.spec_size_of() > 0
    &&& (kind.spec_size_of() == 1 ==> !(f.body matches Some(e) && arg_in_gate(e, j)))
}

/// Whether some private argument never reaches a row.
pub open spec fn has_unused_private(f: Function) -> bool {
    exists|j: int| 0 <= j < f.sig.arguments@.len() && private_arg_unused(f, j)
}

/// A direct addition operand of a well-typed expression is a declared
/// single-element argument.
pub proof fn lemma_arg_in_gate_wf(e: Expr, args: Seq<FnArg>, j: int)
    requires
        expr_wf(e, args),
        arg_in_gate(e, j),
    ensures
        0 <= j < args.len(),
        args[j].typ.kind.spec_size_of() == 1,
    decreases e,
{
    match e {
        Expr::Arg(_) => {},
        Expr::Const(_) => {},
        Expr::Add(x, y) => {
            if arg_in_gate(*x, j) {
                lemma_arg_in_gate_wf(*x, args, j);
            } else if arg_in_gate(*y, j) {
                lemma_arg_in_gate_wf(*y, args, j);
            } else {
                if *x matches Expr::Arg(jj) && jj == j {
                    assert(expr_wf(*x, args));
                } else {
                    assert(*y matches Expr::Arg(jj) && jj == j);
                    assert(expr_wf(*y, args));
                }
            }
        },
    }
}

/// What a successful compilation pins down about the produced circuit
/// beyond its structural well-formedness: a public output is reserved
/// exactly when the entry function declares a return type (one cell wide),
/// the declared public input width is the sum of the public arguments'
/// widths, and the private inputs recorded are exactly as wide as the
/// private arguments.
pub open spec fn compiled_shape_ok(f: Function, c: CompiledCircuit) -> bool {
    let nargs = f.sig.arguments@.len() as int;
    &&& (c.circuit.public_output is Some <==> f.sig.return_type is Some)
    &&& c.circuit.out_count() == if f.sig.return_type is Some {
        1int
    } else {
        0int
    }
    &&& c.circuit.pub_in_count() == pub_width_sum(f.sig.arguments@, nargs)
    &&& c.circuit.public_input_size == pub_width_sum(f.sig.arguments@, nargs)
        + c.circuit.out_count()
    &&& c.circuit.private_input_indices@.len() == priv_width_sum(f.sig.arguments@, nargs)
}

/// The span a compilation error carries: the offending attribute's span,
/// the unsupported return type's span, or the entry function's own span.
pub open spec fn error_span_ok(m: TypedModule, e: Error) -> bool {
    match m.main {
        None => e.span == (Span { start: 0, len: 0 }),
        Some(f) => match e.kind {
            ErrorKind::InvalidAttribute => exists|j: int|
                0 <= j < f.sig.arguments@.len() && match (#[trigger] f.sig.arguments@[j]).attribute {
                    Some(a) => !(a.kind is Pub) && e.span == a.span,
                    None => false,
                },
            ErrorKind::UnsupportedType => f.sig.return_type matches Some(t) && e.span == t.span,
            ErrorKind::MissingReturn => e.span == f.span,
            ErrorKind::UnexpectedReturn => e.span == f.span,
            ErrorKind::PrivateInputNotUsed => e.span == f.span,
            _ => true,
        },
    }
}

/// Whether an expression is compilable against the argument variables of a
/// given session: every referenced argument resolved to a single element,
/// either a reduced constant or a live non-output cell.
pub open spec fn expr_args_ok(e: Expr, args: Seq<Var>, w: CircuitWriter) -> bool
    decreases e,
{
    match e {
        Expr::Arg(i) => i < args.len() && args[i as int].cvars@.len() == 1 && match args[
            i as int].cvars@[0] {
            ConstOrCell::Cell(cv) => cv.index < w.num_vars() && !w.witness_vars@[
                cv.index as int].is_output(),
            ConstOrCell::Const(c) => c < FIELD_MODULUS,
        },
        Expr::Const(c) => c < FIELD_MODULUS,
        Expr::Add(a, b) => expr_args_ok(*a, args, w) && expr_args_ok(*b, args, w),
    }
}

/// Compilability is stable under growing the session.
pub proof fn lemma_expr_args_ok_mono(e: Expr, args: Seq<Var>, a: CircuitWriter, b: CircuitWriter)
    requires
        expr_args_ok(e, args, a),
        a.num_vars() <= b.num_vars(),
        forall|i: int|
            0 <= i < a.witness_vars@.len() ==> b.witness_vars@[i] == a.witness_vars@[i],
    ensures
        expr_args_ok(e, args, b),
    decreases e,
{
    match e {
        Expr::Arg(_) => {},
        Expr::Const(_) => {},
        Expr::Add(x, y) => {
            lemma_expr_args_ok_mono(*x, args, a, b);
            lemma_expr_args_ok_mono(*y, args, a, b);
        },
    }
}

/// A well-typed expression is compilable against argument variables whose
/// widths match the signature and whose cells are live non-output cells.
pub proof fn lemma_expr_args_ok_intro(
    e: Expr,
    sig_args: Seq<FnArg>,
    vars: Seq<Var>,
    w: CircuitWriter,
)
    requires
        expr_wf(e, sig_args),
        vars.len() == sig_args.len(),
        forall|i: int|
            0 <= i < vars.len() ==> (#[trigger] vars[i]).cvars@.len()
                == sig_args[i].typ.kind.spec_size_of(),
        forall|i: int, c: int|
            0 <= i < vars.len() && 0 <= c < vars[i].cvars@.len()
                ==> match #[trigger] vars[i].cvars@[c] {
                ConstOrCell::Cell(cv) => cv.index < w.num_vars() && !w.witness_vars@[
                    cv.index as int].is_output(),
                ConstOrCell::Const(cc) => cc < FIELD_MODULUS,
            },
    ensures
        expr_args_ok(e, vars, w),
    decreases e,
{
    match e {
        Expr::Arg(_) => {},
        Expr::Const(_) => {},
        Expr::Add(x, y) => {
            lemma_expr_args_ok_intro(*x, sig_args, vars, w);
            lemma_expr_args_ok_intro(*y, sig_args, vars, w);
        },
    }
}

impl CircuitWriter {
    /// Submits one logical generic gate and restores the full session
    /// well-formedness around the raw packer.
    fn emit_generic(
        &mut self,
        label: &'static str,
        vars: Vec<Option<CellVar>>,
        coeffs: Vec<u64>,
        span: Span,
    )
        requires
            old(self).wf(),
            vars@.len() <= GENERIC_REGISTERS,
            coeffs@.len() <= GENERIC_COEFFS,
            forall|j: int| 0 <= j < coeffs@.len() ==> #[trigger] coeffs@[j] < FIELD_MODULUS,
            forall|j: int|
                0 <= j < vars@.len() ==> match #[trigger] vars@[j] {
                    Some(cv) => cv.index < old(self).num_vars(),
                    None => true,
                },
        ensures
            final(self).wf(),
            final(self).witness_vars@ == old(self).witness_vars@,
            final(self).public_input_size == old(self).public_input_size,
            final(self).public_output == old(self).public_output,
            final(self).private_input_indices@ == old(self).private_input_indices@,
            final(self).cached_constants@ == old(self).cached_constants@,
            final(self).double_generic_gate_optimization == old(self).double_generic_gate_optimization,
            final(self).finalized == old(self).finalized,
            forall|i: int| old(self).settled(i) ==> final(self).settled(i),
            forall|i: int| final(self).settled(i) ==> old(self).settled(i) || row_has(vars@, i),
            generic_gate_submitted(*old(self), *final(self), vars@, coeffs@),
            forall|j: int|
                0 <= j < vars@.len() ==> match #[trigger] vars@[j] {
                    Some(cv) => final(self).settled(cv.index as int),
                    None => true,
                },
    {
        let ghost pre = *old(self);
        self.add_generic_gate(label, vars, coeffs, span);
        proof {
            let post = *self;
            assert forall|i: int| 0 <= i < post.num_vars() implies post.covered(i) by {
                assert(pre.covered(i));
                if pre.occurs_in_rows(i) || pre.pending_contains(i) {
                    assert(post.occurs_in_rows(i) || post.pending_contains(i));
                } else {
                    let j = choose|j: int|
                        0 <= j < pre.private_input_indices@.len()
                            && #[trigger] pre.private_input_indices@[j] == i;
                    assert(post.private_input_indices@[j] == i);
                }
            }
            assert forall|i: int|
                0 <= i < post.num_vars() implies match #[trigger] post.witness_vars@[i] {
                Value::PublicInput(sl) => sl < post.pub_in_count(),
                Value::PrivateInput(sl) => sl < post.private_input_indices@.len(),
                _ => true,
            } by {
                assert(post.witness_vars@[i] == pre.witness_vars@[i]);
                assert(post.pub_in_count() == pre.pub_in_count());
            }
            assert forall|j: int|
                0 <= j < post.cached_constants@.len() implies post.occurs_in_rows(
                (#[trigger] post.cached_constants@[j]).1.index as int,
            ) || post.pending_contains(post.cached_constants@[j].1.index as int) by {
                let e = post.cached_constants@[j];
                assert(pre.cached_constants@[j] == e);
                let i = e.1.index as int;
                assert(pre.occurs_in_rows(i) || pre.pending_contains(i));
            }
        }
    }

    /// Constrains a cell to the boolean domain with one logical generic
    /// gate stating `x * x - x == 0`.
    pub fn constrain_bool(&mut self, v: CellVar, span: Span)
        requires
            old(self).wf(),
            v.index < old(self).num_vars(),
        ensures
            final(self).wf(),
            final(self).witness_vars@ == old(self).witness_vars@,
            final(self).public_input_size == old(self).public_input_size,
            final(self).public_output == old(self).public_output,
            final(self).private_input_indices@ == old(self).private_input_indices@,
            final(self).cached_constants@ == old(self).cached_constants@,
            final(self).double_generic_gate_optimization == old(self).double_generic_gate_optimization,
            final(self).finalized == old(self).finalized,
            forall|i: int| old(self).settled(i) ==> final(self).settled(i),
            forall|i: int|
                final(self).settled(i) ==> old(self).settled(i) || i == v.index as int,
            final(self).settled(v.index as int),
            generic_gate_submitted(
                *old(self),
                *final(self),
                seq![Some(v), Some(v)],
                seq![(crate::field::fneg(1) as u64), 0u64, 0u64, 1u64, 0u64],
            ),
    {
        let neg_one = field_neg(1);
        let vars = vec![Some(v), Some(v)];
        let coeffs = vec![neg_one, 0, 0, 1, 0];
        proof {
            assert(vars@ =~= seq![Some(v), Some(v)]);
            assert(coeffs@ =~= seq![(crate::field::fneg(1) as u64), 0u64, 0u64, 1u64, 0u64]);
        }
        let ghost vars_view = vars@;
        self.emit_generic("constrain boolean", vars, coeffs, span);
        proof {
            assert forall|i: int| self.settled(i) implies old(self).settled(i) || i
                == v.index as int by {
                if !old(self).settled(i) {
                    assert(row_has(vars_view, i));
                    let c = choose|c: int|
                        0 <= c < vars_view.len() && match #[trigger] vars_view[c] {
                            Some(cv) => cv.index == i,
                            None => false,
                        };
                }
            }
        }
    }

    /// Emits a generic row enforcing `lhs + constant - out == 0`, `out` fresh.
    fn add_const_gate(&mut self, v: CellVar, x: u64, span: Span) -> (out: CellVar)
        requires
            old(self).wf(),
            x < FIELD_MODULUS,
            v.index < old(self).num_vars(),
            !old(self).witness_vars@[v.index as int].is_output(),
        ensures
            final(self).wf(),
            final(self).num_vars() == old(self).num_vars() + 1,
            forall|i: int|
                0 <= i < old(self).witness_vars@.len() ==> final(self).witness_vars@[i] == old(self).witness_vars@[i],
            final(self).public_input_size == old(self).public_input_size,
            final(self).public_output == old(self).public_output,
            final(self).private_input_indices@ == old(self).private_input_indices@,
            final(self).cached_constants@ == old(self).cached_constants@,
            final(self).double_generic_gate_optimization == old(self).double_generic_gate_optimization,
            final(self).finalized == old(self).finalized,
            forall|i: int| old(self).settled(i) ==> final(self).settled(i),
            forall|i: int|
                0 <= i < old(self).num_vars() && final(self).settled(i) ==> old(self).settled(i)
                    || i == v.index as int,
            out.index == old(self).num_vars(),
            final(self).witness_vars@[out.index as int] matches Value::LinearCombination(t, k)
                && t@ =~= seq![(1u64, v)] && k == x,
            final(self).settled(out.index as int),
    {
        let ghost pre = *old(self);
        let mut terms: Vec<(u64, CellVar)> = Vec::new();
        terms.push((1, v));
        proof {
            let pushed = pre.witness_vars@.push(Value::LinearCombination(terms, x));
            assert forall|j: int| 0 <= j < terms@.len() implies (#[trigger] terms@[j]).0
                < FIELD_MODULUS && terms@[j].1.index < pre.num_vars() && !pushed[terms@[j].1.index as int].is_output() by {
                assert(terms@[j] == (1u64, v));
                assert(pushed[v.index as int] == pre.witness_vars@[v.index as int]);
            }
        }
        let out = self.new_internal_var(Value::LinearCombination(terms, x), span);
        let ghost s1 = *self;
        proof {
            assert forall|i: int| 0 <= i < s1.num_vars() implies s1.covered(i) || i
                == out.index as int by {
                if i < pre.num_vars() {
                    Self::lemma_covered_preserved(pre, s1, i);
                }
            }
        }
        let neg_one = field_neg(1);
        let gate_vars = vec![Some(v), None, Some(out)];
        let ghost gate_vars_view = gate_vars@;
        self.add_generic_gate("addition", gate_vars, vec![1, 0, neg_one, 0, x], span);
        proof {
            let post = *self;
            assert forall|i: int|
                0 <= i < pre.num_vars() && post.settled(i) implies pre.settled(i) || i
                == v.index as int by {
                assert(s1.settled(i) || row_has(gate_vars_view, i));
                if row_has(gate_vars_view, i) && i != v.index as int {
                    let c = choose|c: int|
                        0 <= c < gate_vars_view.len() && match #[trigger] gate_vars_view[c] {
                            Some(cv) => cv.index == i,
                            None => false,
                        };
                    assert(false);
                }
                if s1.settled(i) {
                    if s1.occurs_in_rows(i) {
                        Self::lemma_occurs_same_rows(s1, pre, i);
                    }
                    assert(pre.settled(i));
                }
            }
            assert forall|i: int| 0 <= i < post.num_vars() implies post.covered(i) by {
                if i == out.index as int {
                    assert(post.occurs_in_rows(i) || post.pending_contains(i));
                } else {
                    assert(s1.covered(i));
                    if s1.occurs_in_rows(i) || s1.pending_contains(i) {
                        assert(post.occurs_in_rows(i) || post.pending_contains(i));
                    } else {
                        let j = choose|j: int|
                            0 <= j < s1.private_input_indices@.len()
                                && #[trigger] s1.private_input_indices@[j] == i;
                        assert(post.private_input_indices@[j] == i);
                    }
                }
            }
            assert forall|i: int|
                0 <= i < post.num_vars() implies match #[trigger] post.witness_vars@[i] {
                Value::PublicInput(sl) => sl < post.pub_in_count(),
                Value::PrivateInput(sl) => sl < post.private_input_indices@.len(),
                _ => true,
            } by {
                if i < pre.num_vars() {
                    assert(post.witness_vars@[i] == pre.witness_vars@[i]);
                    assert(post.pub_in_count() == pre.pub_in_count());
                } else {
                    assert(post.witness_vars@[i] == Value::LinearCombination(terms, x));
                }
            }
            assert forall|j: int|
                0 <= j < post.cached_constants@.len() implies post.occurs_in_rows(
                (#[trigger] post.cached_constants@[j]).1.index as int,
            ) || post.pending_contains(post.cached_constants@[j].1.index as int) by {
                let e = post.cached_constants@[j];
                assert(pre.cached_constants@[j] == e);
                let i = e.1.index as int;
                if pre.occurs_in_rows(i) {
                    Self::lemma_occurs_same_rows(pre, s1, i);
                }
                assert(s1.occurs_in_rows(i) || s1.pending_contains(i));
            }
            assert forall|i: int| pre.settled(i) implies post.settled(i) by {
                if pre.occurs_in_rows(i) {
                    Self::lemma_occurs_same_rows(pre, s1, i);
                }
                assert(s1.settled(i));
            }
        }
        out
    }

    /// Emits a generic row enforcing `lhs + rhs - out == 0`, `out` fresh.
    fn add_vars_gate(&mut self, u: CellVar, v: CellVar, span: Span) -> (out: CellVar)
        requires
            old(self).wf(),
            u.index < old(self).num_vars(),
            v.index < old(self).num_vars(),
            !old(self).witness_vars@[u.index as int].is_output(),
            !old(self).witness_vars@[v.index as int].is_output(),
        ensures
            final(self).wf(),
            final(self).num_vars() == old(self).num_vars() + 1,
            forall|i: int|
                0 <= i < old(self).witness_vars@.len() ==> final(self).witness_vars@[i] == old(self).witness_vars@[i],
            final(self).public_input_size == old(self).public_input_size,
            final(self).public_output == old(self).public_output,
            final(self).private_input_indices@ == old(self).private_input_indices@,
            final(self).cached_constants@ == old(self).cached_constants@,
            final(self).double_generic_gate_optimization == old(self).double_generic_gate_optimization,
            final(self).finalized == old(self).finalized,
            forall|i: int| old(self).settled(i) ==> final(self).settled(i),
            forall|i: int|
                0 <= i < old(self).num_vars() && final(self).settled(i) ==> old(self).settled(i)
                    || i == u.index as int || i == v.index as int,
            out.index == old(self).num_vars(),
            final(self).witness_vars@[out.index as int] matches Value::LinearCombination(t, k)
                && t@ =~= seq![(1u64, u), (1u64, v)] && k == 0,
            final(self).settled(out.index as int),
    {
        let ghost pre = *old(self);
        let mut terms: Vec<(u64, CellVar)> = Vec::new();
        terms.push((1, u));
        terms.push((1, v));
        proof {
            let pushed = pre.witness_vars@.push(Value::LinearCombination(terms, 0));
            assert forall|j: int| 0 <= j < terms@.len() implies (#[trigger] terms@[j]).0
                < FIELD_MODULUS && terms@[j].1.index < pre.num_vars() && !pushed[terms@[j].1.index as int].is_output() by {
                if j == 0 {
                    assert(terms@[j] == (1u64, u));
                    assert(pushed[u.index as int] == pre.witness_vars@[u.index as int]);
                } else {
                    assert(terms@[j] == (1u64, v));
                    assert(pushed[v.index as int] == pre.witness_vars@[v.index as int]);
                }
            }
        }
        let out = self.new_internal_var(Value::LinearCombination(terms, 0), span);
        let ghost s1 = *self;
        proof {
            assert forall|i: int| 0 <= i < s1.num_vars() implies s1.covered(i) || i
                == out.index as int by {
                if i < pre.num_vars() {
                    Self::lemma_covered_preserved(pre, s1, i);
                }
            }
        }
        let neg_one = field_neg(1);
        let gate_vars = vec![Some(u), Some(v), Some(out)];
        let ghost gate_vars_view = gate_vars@;
        self.add_generic_gate("addition", gate_vars, vec![1, 1, neg_one, 0, 0], span);
        proof {
            let post = *self;
            assert forall|i: int|
                0 <= i < pre.num_vars() && post.settled(i) implies pre.settled(i) || i
                == u.index as int || i == v.index as int by {
                assert(s1.settled(i) || row_has(gate_vars_view, i));
                if row_has(gate_vars_view, i) && i != u.index as int && i != v.index as int {
                    let c = choose|c: int|
                        0 <= c < gate_vars_view.len() && match #[trigger] gate_vars_view[c] {
                            Some(cv) => cv.index == i,
                            None => false,
                        };
                    assert(false);
                }
                if s1.settled(i) {
                    if s1.occurs_in_rows(i) {
                        Self::lemma_occurs_same_rows(s1, pre, i);
                    }
                    assert(pre.settled(i));
                }
            }
            assert forall|i: int| 0 <= i < post.num_vars() implies post.covered(i) by {
                if i == out.index as int {
                    assert(post.occurs_in_rows(i) || post.pending_contains(i));
                } else {
                    assert(s1.covered(i));
                    if s1.occurs_in_rows(i) || s1.pending_contains(i) {
                        assert(post.occurs_in_rows(i) || post.pending_contains(i));
                    } else {
                        let j = choose|j: int|
                            0 <= j < s1.private_input_indices@.len()
                                && #[trigger] s1.private_input_indices@[j] == i;
                        assert(post.private_input_indices@[j] == i);
                    }
                }
            }
            assert forall|i: int|
                0 <= i < post.num_vars() implies match #[trigger] post.witness_vars@[i] {
                Value::PublicInput(sl) => sl < post.pub_in_count(),
                Value::PrivateInput(sl) => sl < post.private_input_indices@.len(),
                _ => true,
            } by {
                if i < pre.num_vars() {
                    assert(post.witness_vars@[i] == pre.witness_vars@[i]);
                    assert(post.pub_in_count() == pre.pub_in_count());
                } else {
                    assert(post.witness_vars@[i] == Value::LinearCombination(terms, 0));
                }
            }
            assert forall|j: int|
                0 <= j < post.cached_constants@.len() implies post.occurs_in_rows(
                (#[trigger] post.cached_constants@[j]).1.index as int,
            ) || post.pending_contains(post.cached_constants@[j].1.index as int) by {
                let e = post.cached_constants@[j];
                assert(pre.cached_constants@[j] == e);
                let i = e.1.index as int;
                if pre.occurs_in_rows(i) {
                    Self::lemma_occurs_same_rows(pre, s1, i);
                }
                assert(s1.occurs_in_rows(i) || s1.pending_contains(i));
            }
            assert forall|i: int| pre.settled(i) implies post.settled(i) by {
                if pre.occurs_in_rows(i) {
                    Self::lemma_occurs_same_rows(pre, s1, i);
                }
                assert(s1.settled(i));
            }
        }
        out
    }

    /// Compiles one field expression of the body against the argument
    /// variables, returning the constant or cell holding its value.
    fn compile_expr(&mut self, args: &Vec<Var>, expr: &Expr, span: Span) -> (res: ConstOrCell)
        requires
            old(self).wf(),
            expr_args_ok(*expr, args@, *old(self)),
        ensures
            final(self).wf(),
            final(self).num_vars() >= old(self).num_vars(),
            forall|i: int|
                0 <= i < old(self).witness_vars@.len() ==> final(self).witness_vars@[i] == old(self).witness_vars@[i],
            final(self).public_input_size == old(self).public_input_size,
            final(self).public_output == old(self).public_output,
            final(self).private_input_indices@ == old(self).private_input_indices@,
            final(self).cached_constants@ == old(self).cached_constants@,
            final(self).double_generic_gate_optimization == old(self).double_generic_gate_optimization,
            final(self).finalized == old(self).finalized,
            forall|i: int| old(self).settled(i) ==> final(self).settled(i),
            match res {
                ConstOrCell::Const(c) => c < FIELD_MODULUS,
                ConstOrCell::Cell(cv) => cv.index < final(self).num_vars() && !final(self).witness_vars@[cv.index as int].is_output() && (cv.index >= old(self).num_vars() || (
                *expr matches Expr::Arg(j) && args@[j as int].cvars@[0] == ConstOrCell::Cell(cv))),
            },
            forall|i: int|
                0 <= i < old(self).num_vars() && final(self).settled(i) ==> old(self).settled(i)
                    || (exists|j: int|
                    0 <= j < args@.len() && arg_in_gate(*expr, j) && match (
                    #[trigger] args@[j]).cvars@[0] {
                        ConstOrCell::Cell(cv2) => cv2.index == i,
                        ConstOrCell::Const(_) => false,
                    }),
        decreases *expr,
    {
        match expr {
            Expr::Arg(i) => {
                let arg_var = &args[*i];
                arg_var.cvars[0]
            },
            Expr::Const(c) => ConstOrCell::Const(*c),
            Expr::Add(a, b) => {
                let ghost pre = *old(self);
                let lhs = self.compile_expr(args, a, span);
                proof {
                    lemma_expr_args_ok_mono(**b, args@, pre, *self);
                }
                let ghost s1 = *self;
                let rhs = self.compile_expr(args, b, span);
                proof {
                    match lhs {
                        ConstOrCell::Cell(cv) => {
                            assert(self.witness_vars@[cv.index as int] == s1.witness_vars@[
                            cv.index as int]);
                        },
                        ConstOrCell::Const(_) => {},
                    }
                }
                let ghost s2 = *self;
                let res: ConstOrCell = match (lhs, rhs) {
                    (ConstOrCell::Const(x), ConstOrCell::Const(y)) => ConstOrCell::Const(
                        field_add(x, y),
                    ),
                    (ConstOrCell::Const(x), ConstOrCell::Cell(v)) => ConstOrCell::Cell(
                        self.add_const_gate(v, x, span),
                    ),
                    (ConstOrCell::Cell(v), ConstOrCell::Const(x)) => ConstOrCell::Cell(
                        self.add_const_gate(v, x, span),
                    ),
                    (ConstOrCell::Cell(u), ConstOrCell::Cell(v)) => ConstOrCell::Cell(
                        self.add_vars_gate(u, v, span),
                    ),
                };
                proof {
                    let post = *self;
                    assert forall|i: int|
                        0 <= i < pre.num_vars() && post.settled(i) implies pre.settled(i) || (
                    exists|j: int|
                        0 <= j < args@.len() && arg_in_gate(*expr, j) && match (
                        #[trigger] args@[j]).cvars@[0] {
                            ConstOrCell::Cell(cv2) => cv2.index == i,
                            ConstOrCell::Const(_) => false,
                        }) by {
                        // an operand cell settled by the emitted row is either a
                        // fresh intermediate or a direct argument operand
                        assert(expr_args_ok(**a, args@, pre));
                        assert(expr_args_ok(**b, args@, s1));
                        let operand_hit = !s2.settled(i);
                        if operand_hit {
                            // i is one of the operand cells of the emitted row
                            match lhs {
                                ConstOrCell::Cell(u0) => {
                                    if i == u0.index as int {
                                        assert(u0.index < pre.num_vars());
                                        match **a {
                                            Expr::Arg(j0) => {
                                                assert(j0 < args@.len());
                                                assert(args@[j0 as int].cvars@[0]
                                                    == ConstOrCell::Cell(u0));
                                                assert(arg_in_gate(*expr, j0 as int));
                                                assert(exists|j: int|
                                                    0 <= j < args@.len() && arg_in_gate(*expr, j)
                                                        && match (#[trigger] args@[j]).cvars@[0] {
                                                        ConstOrCell::Cell(cv2) => cv2.index == i,
                                                        ConstOrCell::Const(_) => false,
                                                    });
                                            },
                                            _ => {
                                                assert(false);
                                            },
                                        }
                                    }
                                },
                                ConstOrCell::Const(_) => {},
                            }
                            match rhs {
                                ConstOrCell::Cell(v0) => {
                                    if i == v0.index as int && match lhs {
                                        ConstOrCell::Cell(u0) => i != u0.index as int,
                                        ConstOrCell::Const(_) => true,
                                    } {
                                        assert(v0.index < pre.num_vars());
                                        match **b {
                                            Expr::Arg(j0) => {
                                                assert(j0 < args@.len());
                                                assert(args@[j0 as int].cvars@[0]
                                                    == ConstOrCell::Cell(v0));
                                                assert(arg_in_gate(*expr, j0 as int));
                                                assert(exists|j: int|
                                                    0 <= j < args@.len() && arg_in_gate(*expr, j)
                                                        && match (#[trigger] args@[j]).cvars@[0] {
                                                        ConstOrCell::Cell(cv2) => cv2.index == i,
                                                        ConstOrCell::Const(_) => false,
                                                    });
                                            },
                                            _ => {
                                                assert(false);
                                            },
                                        }
                                    }
                                },
                                ConstOrCell::Const(_) => {},
                            }
                        } else {
                            // settled before the row: chain through the two
                            // subexpression compilations
                            if !s1.settled(i) {
                                assert(i < s1.num_vars());
                                let j0 = choose|j0: int|
                                    0 <= j0 < args@.len() && arg_in_gate(**b, j0) && match (
                                    #[trigger] args@[j0]).cvars@[0] {
                                        ConstOrCell::Cell(cv2) => cv2.index == i,
                                        ConstOrCell::Const(_) => false,
                                    };
                                assert(arg_in_gate(*expr, j0));
                                assert(exists|j: int|
                                    0 <= j < args@.len() && arg_in_gate(*expr, j) && match (
                                    #[trigger] args@[j]).cvars@[0] {
                                        ConstOrCell::Cell(cv2) => cv2.index == i,
                                        ConstOrCell::Const(_) => false,
                                    });
                            } else if !pre.settled(i) {
                                let j0 = choose|j0: int|
                                    0 <= j0 < args@.len() && arg_in_gate(**a, j0) && match (
                                    #[trigger] args@[j0]).cvars@[0] {
                                        ConstOrCell::Cell(cv2) => cv2.index == i,
                                        ConstOrCell::Const(_) => false,
                                    };
                                assert(arg_in_gate(*expr, j0));
                                assert(exists|j: int|
                                    0 <= j < args@.len() && arg_in_gate(*expr, j) && match (
                                    #[trigger] args@[j]).cvars@[0] {
                                        ConstOrCell::Cell(cv2) => cv2.index == i,
                                        ConstOrCell::Const(_) => false,
                                    });
                            }
                        }
                    }
                }
                res
            },
        }
    }

    /// Records the defining cell of the public output: from now on the
    /// output cell's recipe is "resolve `ret`, last".
    pub fn set_output_value(&mut self, out: CellVar, ret: CellVar)
        requires
            old(self).wf(),
            out.index < old(self).num_vars(),
            old(self).witness_vars@[out.index as int] is PublicOutput,
            ret.index < old(self).num_vars(),
            !old(self).witness_vars@[ret.index as int].is_output(),
        ensures
            final(self).wf(),
            final(self).witness_vars@ == old(self).witness_vars@.update(
                out.index as int,
                Value::PublicOutput(Some(ret)),
            ),
            final(self).rows_of_vars@ == old(self).rows_of_vars@,
            final(self).gates@ == old(self).gates@,
            final(self).public_input_size == old(self).public_input_size,
            final(self).public_output == old(self).public_output,
            final(self).private_input_indices@ == old(self).private_input_indices@,
            final(self).cached_constants@ == old(self).cached_constants@,
            final(self).pending_generic_gate == old(self).pending_generic_gate,
            final(self).finalized == old(self).finalized,
            forall|i: int| old(self).settled(i) ==> final(self).settled(i),
            forall|i: int| final(self).settled(i) ==> old(self).settled(i),
    {
        let ghost pre = *old(self);
        self.witness_vars[out.index] = Value::PublicOutput(Some(ret));
        proof {
            let post = *self;
            let oi = out.index as int;
            assert forall|i: int| 0 <= i < post.num_vars() implies value_wf(
                post.witness_vars@,
                i,
            ) by {
                assert(value_wf(pre.witness_vars@, i));
                if i == oi {
                    assert(post.witness_vars@[ret.index as int] == pre.witness_vars@[
                    ret.index as int]);
                } else {
                    assert(post.witness_vars@[i] == pre.witness_vars@[i]);
                    match pre.witness_vars@[i] {
                        Value::LinearCombination(terms, _) => {
                            assert forall|j: int| 0 <= j < terms@.len() implies (
                            #[trigger] terms@[j]).0 < FIELD_MODULUS && terms@[j].1.index < i
                                && !post.witness_vars@[terms@[j].1.index as int].is_output() by {
                                let t = terms@[j].1.index as int;
                                assert(!pre.witness_vars@[t].is_output());
                                assert(t != oi);
                                assert(post.witness_vars@[t] == pre.witness_vars@[t]);
                            }
                        },
                        Value::PublicOutput(target) => {
                            match target {
                                Some(cv) => {
                                    let t = cv.index as int;
                                    assert(!pre.witness_vars@[t].is_output());
                                    assert(t != oi);
                                    assert(post.witness_vars@[t] == pre.witness_vars@[t]);
                                },
                                None => {},
                            }
                        },
                        _ => {},
                    }
                }
            }
            assert forall|i: int| 0 <= i < post.num_vars() implies post.wiring_entry_wf(i) by {
                assert(pre.wiring_entry_wf(i));
                assert(post.wiring@[i] == pre.wiring@[i]);
                let list = post.wiring@[i]@;
                assert forall|k: int| 0 <= k < list.len() implies post.cell_for(
                    (#[trigger] list[k]).cell,
                    i,
                ) by {
                    assert(pre.cell_for(list[k].cell, i));
                }
            }
            assert forall|j: int| 0 <= j < post.cached_constants@.len() implies {
                let e = #[trigger] post.cached_constants@[j];
                &&& e.0 < FIELD_MODULUS
                &&& e.1.index < post.num_vars()
                &&& post.witness_vars@[e.1.index as int] == Value::Constant(e.0)
            } by {
                let e = post.cached_constants@[j];
                assert(pre.cached_constants@[j] == e);
                assert(pre.witness_vars@[e.1.index as int] == Value::Constant(e.0));
                assert(e.1.index as int != oi);
            }
            assert(post.pending_wf()) by {
                assert(pre.pending_wf());
            }
            assert(post.output_wf()) by {
                assert(pre.output_wf());
                match post.public_output {
                    Some(v) => {
                        assert forall|k: int|
                            0 <= k < v.cvars@.len() implies match #[trigger] v.cvars@[k] {
                            ConstOrCell::Cell(cv) => cv.index < post.num_vars()
                                && post.witness_vars@[cv.index as int] is PublicOutput,
                            ConstOrCell::Const(_) => false,
                        } by {
                            match v.cvars@[k] {
                                ConstOrCell::Cell(cv) => {
                                    if cv.index as int != oi {
                                        assert(post.witness_vars@[cv.index as int]
                                            == pre.witness_vars@[cv.index as int]);
                                    }
                                },
                                ConstOrCell::Const(_) => {},
                            }
                        }
                    },
                    None => {},
                }
            }
            assert forall|i: int| 0 <= i < post.num_vars() implies post.covered(i) by {
                Self::lemma_covered_preserved(pre, post, i);
            }
            assert forall|i: int|
                0 <= i < post.num_vars() implies match #[trigger] post.witness_vars@[i] {
                Value::PublicInput(sl) => sl < post.pub_in_count(),
                Value::PrivateInput(sl) => sl < post.private_input_indices@.len(),
                _ => true,
            } by {
                if i != oi {
                    assert(post.witness_vars@[i] == pre.witness_vars@[i]);
                }
                assert(post.pub_in_count() == pre.pub_in_count());
            }
            assert forall|j: int|
                0 <= j < post.cached_constants@.len() implies post.occurs_in_rows(
                (#[trigger] post.cached_constants@[j]).1.index as int,
            ) || post.pending_contains(post.cached_constants@[j].1.index as int) by {
                let e = post.cached_constants@[j];
                assert(pre.cached_constants@[j] == e);
                let i = e.1.index as int;
                if pre.occurs_in_rows(i) {
                    Self::lemma_occurs_same_rows(pre, post, i);
                }
            }
            assert forall|i: int| pre.settled(i) implies post.settled(i) by {
                if pre.occurs_in_rows(i) {
                    Self::lemma_occurs_same_rows(pre, post, i);
                }
            }
            assert forall|i: int| post.settled(i) implies pre.settled(i) by {
                if post.occurs_in_rows(i) {
                    Self::lemma_occurs_same_rows(post, pre, i);
                }
            }
        }
    }
}

impl CircuitWriter {
    /// Compiles the type-checked module into a finalized circuit: registers
    /// the module constants, looks up the entry function, allocates its
    /// public and private inputs with their validity constraints, reserves
    /// the public output, compiles the returned expression, flushes the
    /// pending gate, and runs the finalization sanity pass.
    #[verifier::rlimit(80)]
    pub fn generate_circuit(typed: TypedModule) -> (r: Result<CompiledCircuit, Error>)
        requires
            module_wf(typed),
            match typed.main {
                Some(f) => arg_width_sum(f.sig.arguments@, f.sig.arguments@.len() as int) + 1
                    <= usize::MAX,
                None => true,
            },
        ensures
            match early_outcome(typed) {
                Some(k) => r matches Err(e) && e.kind == k && error_span_ok(typed, e),
                None => match r {
                    Ok(c) => c.wf() && compiled_shape_ok(typed.main->Some_0, c),
                    Err(e) => e.kind == ErrorKind::PrivateInputNotUsed && error_span_ok(typed, e),
                },
            },
            early_outcome(typed) is None && (typed.main matches Some(f) && forall|j: int|
                0 <= j < f.sig.arguments@.len() ==> (#[trigger] f.sig.arguments@[j]).is_public())
                ==> r is Ok,
            early_outcome(typed) is None && (typed.main matches Some(f) && has_unused_private(f))
                ==> (r matches Err(e) && e.kind == ErrorKind::PrivateInputNotUsed),
    {
        let mut writer = CircuitWriter::new(true);
        let TypedModule { constants, main } = typed;

        // register the module's compile-time constants as constrained cells
        let ghost pre_consts = writer;
        let ncon = constants.len();
        let mut ci: usize = 0;
        while ci < ncon
            invariant
                ci <= ncon,
                ncon == constants@.len(),
                forall|j: int| 0 <= j < constants@.len() ==> #[trigger] constants@[j]
                    < FIELD_MODULUS,
                writer.wf(),
                writer.public_output is None,
                writer.public_input_size == 0,
                writer.private_input_indices@.len() == 0,
                writer.double_generic_gate_optimization,
                !writer.finalized,
            decreases ncon - ci,
        {
            writer.add_constant("module constant", constants[ci], Span::zero());
            ci += 1;
        }

        // look up the entry function
        let function = match main {
            Some(f) => f,
            None => {
                return Err(Error::new(ErrorKind::NoMainFunction, Span::zero()));
            },
        };
        let ghost f_spec = function;
        proof {
            assert(typed.main == Some(f_spec));
        }

        // allocate the inputs, argument by argument; remember a witness cell
        // of the first private argument that can never reach a row
        let nargs = function.sig.arguments.len();
        let mut fn_args: Vec<Var> = Vec::new();
        let ghost mut bad: Option<(int, int)> = None;
        let mut k: usize = 0;
        while k < nargs
            invariant
                k <= nargs,
                nargs == f_spec.sig.arguments@.len(),
                typed.main == Some(f_spec),
                function.sig.arguments@ == f_spec.sig.arguments@,
                function.body == f_spec.body,
                function.sig.return_type == f_spec.sig.return_type,
                function.span == f_spec.span,
                arg_width_sum(f_spec.sig.arguments@, nargs as int) + 1 <= usize::MAX,
                match f_spec.body {
                    Some(e) => expr_wf(e, f_spec.sig.arguments@),
                    None => true,
                },
                writer.wf(),
                writer.public_output is None,
                writer.public_input_size == pub_width_sum(f_spec.sig.arguments@, k as int),
                writer.private_input_indices@.len() == priv_width_sum(
                    f_spec.sig.arguments@,
                    k as int,
                ),
                writer.double_generic_gate_optimization,
                !writer.finalized,
                (forall|j: int|
                    0 <= j < k ==> (#[trigger] f_spec.sig.arguments@[j]).is_public())
                    ==> writer.private_input_indices@.len() == 0,
                forall|j: int|
                    0 <= j < k ==> !(match (#[trigger] f_spec.sig.arguments@[j]).attribute {
                        Some(a) => !(a.kind is Pub),
                        None => false,
                    }),
                fn_args@.len() == k,
                forall|i: int|
                    0 <= i < k ==> (#[trigger] fn_args@[i]).cvars@.len()
                        == f_spec.sig.arguments@[i].typ.kind.spec_size_of(),
                forall|i: int, c: int|
                    0 <= i < k && 0 <= c < fn_args@[i].cvars@.len()
                        ==> match #[trigger] fn_args@[i].cvars@[c] {
                        ConstOrCell::Cell(cv) => cv.index < writer.num_vars()
                            && !writer.witness_vars@[cv.index as int].is_output(),
                        ConstOrCell::Const(cc) => cc < FIELD_MODULUS,
                    },
                match bad {
                    Some(p) => {
                        &&& 0 <= p.1 < k
                        &&& private_arg_unused(f_spec, p.1)
                        &&& 0 <= p.0 < writer.num_vars()
                        &&& !writer.settled(p.0)
                        &&& fn_args@[p.1].cvars@.len() > 0
                        &&& match fn_args@[p.1].cvars@[0] {
                            ConstOrCell::Cell(cv) => cv.index == p.0,
                            ConstOrCell::Const(_) => false,
                        }
                        &&& forall|j: int, c: int|
                            0 <= j < fn_args@.len() && 0 <= c < fn_args@[j].cvars@.len() && !(j
                                == p.1 && c == 0) ==> match #[trigger] fn_args@[j].cvars@[c] {
                                ConstOrCell::Cell(cv) => cv.index != p.0,
                                ConstOrCell::Const(_) => true,
                            }
                    },
                    None => forall|j: int| 0 <= j < k ==> !private_arg_unused(f_spec, j),
                },
            decreases nargs - k,
        {
            let arg = function.sig.arguments[k];
            proof {
                lemma_arg_width_sum_mono(f_spec.sig.arguments@, k + 1, nargs as int);
                lemma_width_sum_split(f_spec.sig.arguments@, k as int + 1);
                assert(arg_width_sum(f_spec.sig.arguments@, k as int + 1) == arg_width_sum(
                    f_spec.sig.arguments@,
                    k as int,
                ) + arg.typ.kind.spec_size_of());
            }
            let len = arg.typ.kind.size_of();
            let ghost before = writer;
            let var = match arg.attribute {
                Some(attr) => {
                    if !matches!(attr.kind, AttributeKind::Pub) {
                        proof {
                            assert(f_spec.sig.arguments@[k as int] == arg);
                            assert(has_bad_attribute(f_spec.sig.arguments@));
                            assert(typed.main == Some(f_spec));
                            assert(match f_spec.sig.arguments@[k as int].attribute {
                                Some(a) => !(a.kind is Pub) && attr.span == a.span,
                                None => false,
                            });
                        }
                        return Err(Error::new(ErrorKind::InvalidAttribute, attr.span));
                    }
                    writer.add_public_inputs(len, arg.span)
                },
                None => writer.add_private_inputs(len, arg.span),
            };
            // constrain what needs to be constrained: boolean inputs must be
            // 0 or 1, for private and public inputs alike
            if matches!(arg.typ.kind, TyKind::Bool) {
                let cell = var.cvars[0];
                match cell {
                    ConstOrCell::Cell(cv) => {
                        writer.constrain_bool(cv, arg.typ.span);
                    },
                    ConstOrCell::Const(_) => {
                        proof {
                            assert(false);
                        }
                    },
                }
            }
            proof {
                assert forall|i: int, c: int|
                    0 <= i < fn_args@.len() && 0 <= c
                        < fn_args@[i].cvars@.len() implies match #[trigger] fn_args@[i].cvars@[c] {
                    ConstOrCell::Cell(cv) => cv.index < writer.num_vars()
                        && !writer.witness_vars@[cv.index as int].is_output(),
                    ConstOrCell::Const(cc) => cc < FIELD_MODULUS,
                } by {
                    match fn_args@[i].cvars@[c] {
                        ConstOrCell::Cell(cv) => {
                            assert(writer.witness_vars@[cv.index as int] == before.witness_vars@[
                            cv.index as int]);
                        },
                        ConstOrCell::Const(_) => {},
                    }
                }
            }
            fn_args.push(var);
            proof {
                match bad {
                    Some(p) => {
                        assert(!writer.settled(p.0)) by {
                            if writer.settled(p.0) {
                                assert(before.settled(p.0) || (match arg.typ.kind {
                                    TyKind::Bool => true,
                                    _ => false,
                                } && p.0 >= before.num_vars()));
                            }
                        }
                        assert(fn_args@[p.1] == fn_args@.subrange(0, fn_args@.len() - 1)[p.1]);
                    },
                    None => {
                        if private_arg_unused(f_spec, k as int) {
                            let id = before.num_vars();
                            assert(match var.cvars@[0] {
                                ConstOrCell::Cell(cv) => cv.index == id,
                                ConstOrCell::Const(_) => false,
                            });
                            assert(!writer.settled(id));
                            bad = Some((id, k as int));
                            assert forall|j: int, c: int|
                                0 <= j < fn_args@.len() && 0 <= c < fn_args@[j].cvars@.len() && !(j
                                    == k as int && c == 0) implies match #[trigger] fn_args@[j].cvars@[c] {
                                ConstOrCell::Cell(cv) => cv.index != id,
                                ConstOrCell::Const(_) => true,
                            } by {
                                if j < k as int {
                                    assert(match fn_args@[j].cvars@[c] {
                                        ConstOrCell::Cell(cv) => cv.index < before.num_vars(),
                                        ConstOrCell::Const(_) => true,
                                    });
                                } else {
                                    assert(fn_args@[j] == var);
                                    assert(match var.cvars@[c] {
                                        ConstOrCell::Cell(cv) => cv.index == before.num_vars()
                                            + c,
                                        ConstOrCell::Const(_) => false,
                                    });
                                }
                            }
                        }
                    },
                }
            }
            k += 1;
        }

        // reserve the public output ahead of the body: its wire position
        // belongs at the tail of the public input section
        let mut out_cell: Option<CellVar> = None;
        match function.sig.return_type {
            Some(t) => {
                if !matches!(t.kind, TyKind::Field) {
                    return Err(Error::new(ErrorKind::UnsupportedType, t.span));
                }
                if function.body.is_none() {
                    return Err(Error::new(ErrorKind::MissingReturn, function.span));
                }
                proof {
                    lemma_width_sum_split(f_spec.sig.arguments@, nargs as int);
                }
                let out_var = writer.add_public_outputs(1, t.span);
                match out_var.cvars[0] {
                    ConstOrCell::Cell(cv) => {
                        out_cell = Some(cv);
                    },
                    ConstOrCell::Const(_) => {
                        proof {
                            assert(false);
                        }
                    },
                }
            },
            None => {
                if function.body.is_some() {
                    return Err(Error::new(ErrorKind::UnexpectedReturn, function.span));
                }
            },
        }

        proof {
            assert(typed.main == Some(f_spec));
            if has_bad_attribute(f_spec.sig.arguments@) {
                let bi = choose|bi: int|
                    0 <= bi < f_spec.sig.arguments@.len() && match (
                    #[trigger] f_spec.sig.arguments@[bi]).attribute {
                        Some(a) => !(a.kind is Pub),
                        None => false,
                    };
                assert(false);
            }
            assert(early_outcome(typed) is None);
        }

        proof {
            lemma_width_sum_split(f_spec.sig.arguments@, nargs as int);
            assert(writer.public_output is Some <==> f_spec.sig.return_type is Some);
            assert(writer.out_count() == if f_spec.sig.return_type is Some {
                1int
            } else {
                0int
            });
            assert(writer.pub_in_count() == pub_width_sum(f_spec.sig.arguments@, nargs as int));
            assert(writer.private_input_indices@.len() == priv_width_sum(
                f_spec.sig.arguments@,
                nargs as int,
            ));
            match bad {
                Some(bw) => {
                    assert(0 <= bw.0 < writer.num_vars());
                    assert(!writer.settled(bw.0));
                },
                None => {},
            }
            if has_unused_private(f_spec) && bad is None {
                let j = choose|j: int|
                    0 <= j < f_spec.sig.arguments@.len() && private_arg_unused(f_spec, j);
                assert(false);
            }
        }

        // compile the body and point the output at the returned cell
        let ghost before_body = writer;
        match function.body {
            Some(body) => {
                proof {
                    lemma_expr_args_ok_intro(body, f_spec.sig.arguments@, fn_args@, writer);
                }
                let res = writer.compile_expr(&fn_args, &body, function.span);
                let ghost s_after_expr = writer;
                proof {
                    match bad {
                        Some(bw) => {
                            if s_after_expr.settled(bw.0) {
                                let j = choose|j: int|
                                    0 <= j < fn_args@.len() && arg_in_gate(body, j) && match (
                                    #[trigger] fn_args@[j]).cvars@[0] {
                                        ConstOrCell::Cell(cv2) => cv2.index == bw.0,
                                        ConstOrCell::Const(_) => false,
                                    };
                                lemma_arg_in_gate_wf(body, f_spec.sig.arguments@, j);
                                assert(fn_args@[j].cvars@.len()
                                    == f_spec.sig.arguments@[j].typ.kind.spec_size_of());
                                if j != bw.1 {
                                    assert(match fn_args@[j].cvars@[0] {
                                        ConstOrCell::Cell(cv) => cv.index != bw.0,
                                        ConstOrCell::Const(_) => true,
                                    });
                                    assert(false);
                                }
                                assert(f_spec.body == Some(body));
                                assert(false);
                            }
                        },
                        None => {},
                    }
                }
                let ret_cvar = match res {
                    ConstOrCell::Cell(cv) => cv,
                    ConstOrCell::Const(c) => writer.add_constant(
                        "constant return value",
                        c,
                        function.span,
                    ),
                };
                let ghost s_after_ret = writer;
                proof {
                    match bad {
                        Some(bw) => {
                            assert(!s_after_ret.settled(bw.0));
                        },
                        None => {},
                    }
                }
                let out_cv = match out_cell {
                    Some(cv) => cv,
                    None => {
                        proof {
                            assert(false);
                        }
                        ret_cvar
                    },
                };
                proof {
                    assert(writer.witness_vars@[out_cv.index as int] == before_body.witness_vars@[
                    out_cv.index as int]);
                    assert(writer.witness_vars@[ret_cvar.index as int] is Constant
                        || !writer.witness_vars@[ret_cvar.index as int].is_output());
                }
                writer.set_output_value(out_cv, ret_cvar);
                proof {
                    match bad {
                        Some(bw) => {
                            assert(!writer.settled(bw.0));
                        },
                        None => {},
                    }
                }
            },
            None => {},
        }

        // important: there might still be a pending double-generic gate
        let ghost before_flush = writer;
        let pending = writer.pending_generic_gate.take();
        match pending {
            Some(p) => {
                let ghost s1 = writer;
                proof {
                    assert forall|j: int|
                        0 <= j < s1.private_input_indices@.len() implies (
                    #[trigger] s1.private_input_indices@[j]) < s1.witness_vars@.len() by {}
                    assert forall|j: int| 0 <= j < s1.cached_constants@.len() implies {
                        let e = #[trigger] s1.cached_constants@[j];
                        &&& e.0 < FIELD_MODULUS
                        &&& e.1.index < s1.num_vars()
                        &&& s1.witness_vars@[e.1.index as int] == Value::Constant(e.0)
                    } by {
                        assert(s1.cached_constants@[j] == before_flush.cached_constants@[j]);
                    }
                    CircuitWriter::lemma_wf_base_transfer_general(before_flush, s1);
                }
                writer.add_gate(
                    p.label,
                    crate::writer::GateKind::DoubleGeneric,
                    p.vars,
                    p.coeffs,
                    p.span,
                );
                proof {
                    let post = writer;
                    assert forall|i: int| 0 <= i < post.num_vars() implies post.covered(i) by {
                        assert(before_flush.covered(i));
                        if before_flush.occurs_in_rows(i) {
                            CircuitWriter::lemma_occurs_same_rows(before_flush, s1, i);
                        } else if before_flush.pending_contains(i) {
                            let j = choose|j: int|
                                0 <= j < p.vars@.len() && match #[trigger] p.vars@[j] {
                                    Some(cv) => cv.index == i,
                                    None => false,
                                };
                            assert(post.occurs_in_rows(i));
                        } else {
                            let j = choose|j: int|
                                0 <= j < before_flush.private_input_indices@.len()
                                    && #[trigger] before_flush.private_input_indices@[j] == i;
                            assert(post.private_input_indices@[j] == i);
                        }
                    }
                    assert forall|i: int|
                        0 <= i < post.num_vars() implies match #[trigger] post.witness_vars@[i] {
                        Value::PublicInput(sl) => sl < post.pub_in_count(),
                        Value::PrivateInput(sl) => sl < post.private_input_indices@.len(),
                        _ => true,
                    } by {
                        assert(post.witness_vars@[i] == before_flush.witness_vars@[i]);
                        assert(post.pub_in_count() == before_flush.pub_in_count());
                    }
                    assert forall|j: int|
                        0 <= j < post.cached_constants@.len() implies post.occurs_in_rows(
                        (#[trigger] post.cached_constants@[j]).1.index as int,
                    ) || post.pending_contains(post.cached_constants@[j].1.index as int) by {
                        let e = post.cached_constants@[j];
                        assert(before_flush.cached_constants@[j] == e);
                        let i = e.1.index as int;
                        if before_flush.occurs_in_rows(i) {
                            CircuitWriter::lemma_occurs_same_rows(before_flush, s1, i);
                            assert(post.occurs_in_rows(i));
                        } else {
                            assert(before_flush.pending_contains(i));
                            let jj = choose|jj: int|
                                0 <= jj < p.vars@.len() && match #[trigger] p.vars@[jj] {
                                    Some(cv) => cv.index == i,
                                    None => false,
                                };
                            assert(post.occurs_in_rows(i));
                        }
                    }
                    match bad {
                        Some(bw) => {
                            if post.settled(bw.0) {
                                assert(s1.settled(bw.0) || crate::writer::row_has(
                                    p.vars@,
                                    bw.0,
                                ));
                                if crate::writer::row_has(p.vars@, bw.0) {
                                    assert(before_flush.pending_contains(bw.0));
                                    assert(false);
                                }
                                if s1.occurs_in_rows(bw.0) {
                                    CircuitWriter::lemma_occurs_same_rows(s1, before_flush, bw.0);
                                }
                                assert(false);
                            }
                        },
                        None => {},
                    }
                }
            },
            None => {
                proof {
                    assert(writer == before_flush);
                }
            },
        }

        proof {
            match bad {
                Some(bw) => {
                    assert(!writer.settled(bw.0));
                    assert(!writer.occurs_in_rows(bw.0));
                },
                None => {},
            }
        }

        // sanity check: every cell variable created must have ended up in
        // some row of the circuit
        let ghost done = writer;
        let n = writer.witness_vars.len();
        let num_rows = writer.rows_of_vars.len();
        let mut written: Vec<bool> = Vec::new();
        let mut t: usize = 0;
        while t < n
            invariant
                t <= n,
                written@.len() == t,
                forall|i: int| 0 <= i < t ==> !written@[i],
            decreases n - t,
        {
            written.push(false);
            t += 1;
        }
        let mut r: usize = 0;
        while r < num_rows
            invariant
                writer == done,
                done.wf(),
                r <= num_rows,
                num_rows == done.rows_of_vars@.len(),
                n == done.num_vars(),
                written@.len() == n,
                forall|i: int|
                    0 <= i < n ==> (written@[i] <==> exists|rr: int|
                        0 <= rr < r && crate::writer::row_has(
                            #[trigger] done.rows_of_vars@[rr]@,
                            i,
                        )),
            decreases num_rows - r,
        {
            let row_len = writer.rows_of_vars[r].len();
            let mut c: usize = 0;
            while c < row_len
                invariant
                    writer == done,
                    done.wf(),
                    r < num_rows,
                    c <= row_len,
                    num_rows == done.rows_of_vars@.len(),
                    row_len == done.rows_of_vars@[r as int]@.len(),
                    n == done.num_vars(),
                    written@.len() == n,
                    forall|i: int|
                        0 <= i < n ==> (written@[i] <==> (exists|rr: int|
                            0 <= rr < r && crate::writer::row_has(
                                #[trigger] done.rows_of_vars@[rr]@,
                                i,
                            )) || exists|cc: int|
                            0 <= cc < c && match #[trigger] done.rows_of_vars@[r as int]@[cc] {
                                Some(cv) => cv.index == i,
                                None => false,
                            }),
                decreases row_len - c,
            {
                let slot = writer.rows_of_vars[r][c];
                let ghost wr_before = written@;
                match slot {
                    Some(cv) => {
                        written[cv.index] = true;
                    },
                    None => {},
                }
                proof {
                    assert forall|i: int|
                        0 <= i < n implies (written@[i] <==> (exists|rr: int|
                        0 <= rr < r && crate::writer::row_has(
                            #[trigger] done.rows_of_vars@[rr]@,
                            i,
                        )) || exists|cc: int|
                        0 <= cc < c + 1 && match #[trigger] done.rows_of_vars@[r as int]@[cc] {
                            Some(cv) => cv.index == i,
                            None => false,
                        }) by {
                        match slot {
                            Some(cv) => {
                                if i == cv.index as int {
                                    assert(match done.rows_of_vars@[r as int]@[c as int] {
                                        Some(cv2) => cv2.index == i,
                                        None => false,
                                    });
                                    assert(written@[i]);
                                } else {
                                    assert(written@[i] == wr_before[i]);
                                }
                            },
                            None => {
                                assert(written@[i] == wr_before[i]);
                            },
                        }
                    }
                }
                c += 1;
            }
            r += 1;
        }
        proof {
            assert forall|i: int| 0 <= i < n implies (written@[i] <==> done.occurs_in_rows(
                i,
            )) by {}
        }
        let mut i: usize = 0;
        while i < n
            invariant
                writer == done,
                done.wf(),
                done.pending_generic_gate is None,
                typed.main == Some(f_spec),
                early_outcome(typed) is None,
                function.span == f_spec.span,
                match bad {
                    Some(bw) => 0 <= bw.0 < n && !done.occurs_in_rows(bw.0),
                    None => true,
                },
                has_unused_private(f_spec) ==> bad is Some,
                n == done.num_vars(),
                written@.len() == n,
                forall|t2: int| 0 <= t2 < n ==> (written@[t2] <==> done.occurs_in_rows(t2)),
                forall|t2: int| 0 <= t2 < i ==> written@[t2],
                (forall|j: int|
                    0 <= j < f_spec.sig.arguments@.len() ==> (
                #[trigger] f_spec.sig.arguments@[j]).is_public())
                    ==> done.private_input_indices@.len() == 0,
            decreases n - i,
        {
            if !written[i] {
                proof {
                    assert(!done.occurs_in_rows(i as int));
                    assert(done.covered(i as int));
                    assert(done.is_private(i as int));
                }
                if contains_index(&writer.private_input_indices, i) {
                    proof {
                        if forall|j: int|
                            0 <= j < f_spec.sig.arguments@.len() ==> (
                        #[trigger] f_spec.sig.arguments@[j]).is_public() {
                            assert(done.private_input_indices@.len() == 0);
                            assert(false);
                        }
                    }
                    return Err(Error::new(ErrorKind::PrivateInputNotUsed, function.span));
                } else {
                    // the session invariant rules this out: every variable
                    // is placed or private once the pending gate is flushed
                    proof {
                        assert(false);
                    }
                    return Err(Error::new(ErrorKind::DanglingVariable, function.span));
                }
            }
            i += 1;
        }

        // we finalized
        let ghost before_fin = writer;
        writer.finalized = true;
        proof {
            let post = writer;
            assert forall|j: int| 0 <= j < post.cached_constants@.len() implies {
                let e = #[trigger] post.cached_constants@[j];
                &&& e.0 < FIELD_MODULUS
                &&& e.1.index < post.num_vars()
                &&& post.witness_vars@[e.1.index as int] == Value::Constant(e.0)
            } by {
                assert(post.cached_constants@[j] == before_fin.cached_constants@[j]);
            }
            CircuitWriter::lemma_wf_base_transfer_general(before_fin, post);
            assert forall|i2: int| 0 <= i2 < post.num_vars() implies post.covered(i2) by {
                CircuitWriter::lemma_covered_preserved(before_fin, post, i2);
            }
            assert forall|i2: int|
                0 <= i2 < post.num_vars() implies match #[trigger] post.witness_vars@[i2] {
                Value::PublicInput(sl) => sl < post.pub_in_count(),
                Value::PrivateInput(sl) => sl < post.private_input_indices@.len(),
                _ => true,
            } by {
                assert(post.witness_vars@[i2] == before_fin.witness_vars@[i2]);
                assert(post.pub_in_count() == before_fin.pub_in_count());
            }
            assert forall|j: int|
                0 <= j < post.cached_constants@.len() implies post.occurs_in_rows(
                (#[trigger] post.cached_constants@[j]).1.index as int,
            ) || post.pending_contains(post.cached_constants@[j].1.index as int) by {
                let e = post.cached_constants@[j];
                assert(before_fin.cached_constants@[j] == e);
                let i2 = e.1.index as int;
                if before_fin.occurs_in_rows(i2) {
                    CircuitWriter::lemma_occurs_same_rows(before_fin, post, i2);
                }
            }
            assert forall|i2: int| 0 <= i2 < post.num_vars() implies post.occurs_in_rows(i2) by {
                assert(written@[i2]);
                assert(done.occurs_in_rows(i2));
                CircuitWriter::lemma_occurs_same_rows(done, post, i2);
            }
            if has_unused_private(f_spec) {
                let bw = bad->Some_0;
                assert(written@[bw.0]);
                assert(done.occurs_in_rows(bw.0));
                assert(false);
            }
        }
        Ok(CompiledCircuit { circuit: writer })
    }
}

/// Checks whether an expression is well typed against the argument list.
pub fn check_expr_wf(e: &Expr, args: &Vec<FnArg>) -> (r: bool)
    ensures
        r == expr_wf(*e, args@),
    decreases *e,
{
    match e {
        Expr::Arg(i) => *i < args.len() && args[*i].typ.kind.size_of() == 1,
        Expr::Const(c) => *c < FIELD_MODULUS,
        Expr::Add(a, b) => {
            let left = check_expr_wf(a, args);
            left && check_expr_wf(b, args)
        },
    }
}

/// Checks executably everything `generate_circuit` requires of a module:
/// well-typedness, and that the total argument width leaves room for the
/// reserved output cell.  Unverified callers test this before compiling.
pub fn check_module_supported(m: &TypedModule) -> (r: bool)
    ensures
        r == (module_wf(*m) && match m.main {
            Some(f) => arg_width_sum(f.sig.arguments@, f.sig.arguments@.len() as int) + 1
                <= usize::MAX,
            None => true,
        }),
{
    let ncon = m.constants.len();
    let mut ci: usize = 0;
    while ci < ncon
        invariant
            ci <= ncon,
            ncon == m.constants@.len(),
            forall|j: int| 0 <= j < ci ==> #[trigger] m.constants@[j] < FIELD_MODULUS,
        decreases ncon - ci,
    {
        if m.constants[ci] >= FIELD_MODULUS {
            return false;
        }
        ci += 1;
    }
    match &m.main {
        None => true,
        Some(f) => {
            let nargs = f.sig.arguments.len();
            let mut acc: u128 = 0;
            let mut k: usize = 0;
            while k < nargs
                invariant
                    m.main == Some(*f),
                    k <= nargs,
                    nargs == f.sig.arguments@.len(),
                    acc <= usize::MAX as u128 - 1,
                    acc as int == arg_width_sum(f.sig.arguments@, k as int),
                decreases nargs - k,
            {
                let w = f.sig.arguments[k].typ.kind.size_of();
                acc = acc + w as u128;
                proof {
                    assert(arg_width_sum(f.sig.arguments@, k as int + 1) == arg_width_sum(
                        f.sig.arguments@,
                        k as int,
                    ) + f.sig.arguments@[k as int].typ.kind.spec_size_of());
                    assert(acc as int == arg_width_sum(f.sig.arguments@, k as int + 1));
                }
                if acc > usize::MAX as u128 - 1 {
                    proof {
                        lemma_arg_width_sum_mono(f.sig.arguments@, k as int + 1, nargs as int);
                        assert(arg_width_sum(f.sig.arguments@, nargs as int) + 1 > usize::MAX);
                    }
                    return false;
                }
                k += 1;
            }
            match &f.body {
                Some(e) => check_expr_wf(e, &f.sig.arguments),
                None => true,
            }
        },
    }
}

/// Whether the vector holds the given index.
pub fn contains_index(v: &Vec<usize>, x: usize) -> (r: bool)
    ensures
        r <==> exists|j: int| 0 <= j < v@.len() && v@[j] == x,
{
    let n = v.len();
    let mut j: usize = 0;
    while j < n
        invariant
            j <= n,
            n == v@.len(),
            forall|t: int| 0 <= t < j ==> v@[t] != x,
        decreases n - j,
    {
        if v[j] == x {
            return true;
        }
        j += 1;
    }
    false
}

} // verus!
