use circuit_writer::ast::{
    Attribute, AttributeKind, Expr, FnArg, FnSig, Function, Span, Ty, TyKind, TypedModule,
};
use circuit_writer::circuit_writer::check_module_supported;
use circuit_writer::error::ErrorKind;
use circuit_writer::field::{field_add, field_mul, field_neg, FIELD_MODULUS};
use circuit_writer::permutation::close_cycle;
use circuit_writer::var::Value;
use circuit_writer::writer::{AnnotatedCell, Cell, CircuitWriter};

fn sp() -> Span {
    Span::new(0, 0)
}

fn field_ty() -> Ty {
    Ty { kind: TyKind::Field, span: sp() }
}

fn pub_arg(kind: TyKind) -> FnArg {
    FnArg {
        attribute: Some(Attribute { kind: AttributeKind::Pub, span: sp() }),
        typ: Ty { kind, span: sp() },
        span: sp(),
    }
}

fn priv_arg(kind: TyKind) -> FnArg {
    FnArg { attribute: None, typ: Ty { kind, span: sp() }, span: sp() }
}

fn one_fn_module(args: Vec<FnArg>, return_type: Option<Ty>, body: Option<Expr>) -> TypedModule {
    TypedModule {
        constants: vec![],
        main: Some(Function { sig: FnSig { arguments: args, return_type }, body, span: sp() }),
    }
}

/// The trivial one-function program `fn main(pub input: Field) -> Field
/// { return input + 1 }`.
fn increment_module() -> TypedModule {
    one_fn_module(
        vec![pub_arg(TyKind::Field)],
        Some(field_ty()),
        Some(Expr::Add(Box::new(Expr::Arg(0)), Box::new(Expr::Const(1)))),
    )
}

#[test]
fn field_arithmetic_exact() {
    assert_eq!(field_add(1, 1), 2);
    assert_eq!(field_add(FIELD_MODULUS - 1, 1), 0);
    assert_eq!(field_mul(3, 4), 12);
    assert_eq!(field_mul(FIELD_MODULUS - 1, 2), FIELD_MODULUS - 2);
    assert_eq!(field_neg(0), 0);
    assert_eq!(field_neg(5), FIELD_MODULUS - 5);
}

#[test]
fn round_trip_increment() {
    let compiled = CircuitWriter::generate_circuit(increment_module()).unwrap();
    let w = compiled.generate_witness(&vec![1], &vec![]).unwrap();
    assert_eq!(w.public_outputs, vec![2]);
    assert_eq!(w.full_public_inputs, vec![1, 2]);
    assert!(compiled.check_witness(&w.all_witness, &vec![1, 2]));
    assert!(!compiled.check_witness(&w.all_witness, &vec![1, 1]));
}

#[test]
fn witness_deterministic() {
    let compiled = CircuitWriter::generate_circuit(increment_module()).unwrap();
    let w1 = compiled.generate_witness(&vec![5], &vec![]).unwrap();
    let w2 = compiled.generate_witness(&vec![5], &vec![]).unwrap();
    assert_eq!(w1.all_witness, w2.all_witness);
    assert_eq!(w1.full_public_inputs, w2.full_public_inputs);
    assert_eq!(w1.public_outputs, w2.public_outputs);
}

#[test]
fn unused_private_input_rejected() {
    let m = one_fn_module(
        vec![priv_arg(TyKind::Field), pub_arg(TyKind::Field)],
        Some(field_ty()),
        Some(Expr::Add(Box::new(Expr::Arg(1)), Box::new(Expr::Const(1)))),
    );
    let err = CircuitWriter::generate_circuit(m).unwrap_err();
    assert_eq!(err.kind, ErrorKind::PrivateInputNotUsed);
}

#[test]
fn used_private_input_accepted() {
    let m = one_fn_module(
        vec![priv_arg(TyKind::Field)],
        Some(field_ty()),
        Some(Expr::Add(Box::new(Expr::Arg(0)), Box::new(Expr::Const(1)))),
    );
    let compiled = CircuitWriter::generate_circuit(m).unwrap();
    let w = compiled.generate_witness(&vec![], &vec![41]).unwrap();
    assert_eq!(w.public_outputs, vec![42]);
    assert_eq!(w.full_public_inputs, vec![42]);
}

#[test]
fn no_main_function_rejected() {
    let m = TypedModule { constants: vec![], main: None };
    let err = CircuitWriter::generate_circuit(m).unwrap_err();
    assert_eq!(err.kind, ErrorKind::NoMainFunction);
}

#[test]
fn invalid_attribute_rejected() {
    let bad = FnArg {
        attribute: Some(Attribute { kind: AttributeKind::Unknown, span: sp() }),
        typ: field_ty(),
        span: sp(),
    };
    let m = one_fn_module(vec![bad], None, None);
    let err = CircuitWriter::generate_circuit(m).unwrap_err();
    assert_eq!(err.kind, ErrorKind::InvalidAttribute);
}

#[test]
fn unsupported_return_type_rejected() {
    let m = one_fn_module(
        vec![pub_arg(TyKind::Field)],
        Some(Ty { kind: TyKind::Bool, span: sp() }),
        Some(Expr::Arg(0)),
    );
    let err = CircuitWriter::generate_circuit(m).unwrap_err();
    assert_eq!(err.kind, ErrorKind::UnsupportedType);
}

#[test]
fn missing_return_rejected() {
    let m = one_fn_module(vec![pub_arg(TyKind::Field)], Some(field_ty()), None);
    let err = CircuitWriter::generate_circuit(m).unwrap_err();
    assert_eq!(err.kind, ErrorKind::MissingReturn);
}

#[test]
fn unexpected_return_rejected() {
    let m = one_fn_module(vec![pub_arg(TyKind::Field)], None, Some(Expr::Arg(0)));
    let err = CircuitWriter::generate_circuit(m).unwrap_err();
    assert_eq!(err.kind, ErrorKind::UnexpectedReturn);
}

#[test]
fn wrong_witness_width_rejected() {
    let compiled = CircuitWriter::generate_circuit(increment_module()).unwrap();
    let err = compiled.generate_witness(&vec![], &vec![]).unwrap_err();
    assert_eq!(err.kind, ErrorKind::MissingInput);
    let err = compiled.generate_witness(&vec![1, 2], &vec![]).unwrap_err();
    assert_eq!(err.kind, ErrorKind::MissingInput);
    let err = compiled.generate_witness(&vec![1], &vec![7]).unwrap_err();
    assert_eq!(err.kind, ErrorKind::MissingInput);
}

#[test]
fn constant_caching_referentially_transparent() {
    let mut w = CircuitWriter::new(true);
    let a = w.add_constant("answer", 42, sp());
    let gates_before = w.gates.len();
    let pending_before = w.pending_generic_gate.is_some();
    let cache_before = w.cached_constants.len();
    let b = w.add_constant("answer", 42, sp());
    assert_eq!(a, b);
    assert_eq!(w.gates.len(), gates_before);
    assert_eq!(w.pending_generic_gate.is_some(), pending_before);
    assert_eq!(w.cached_constants.len(), cache_before);
    let c = w.add_constant("other", 43, sp());
    assert_ne!(a.index, c.index);
}

#[test]
fn double_generic_packing_merges_rows() {
    let neg7 = field_neg(7);
    let neg9 = field_neg(9);
    // with the optimization on, two logical gates share one physical row
    let mut w = CircuitWriter::new(true);
    let x = w.new_internal_var(Value::Constant(7), sp());
    w.add_generic_gate("first", vec![Some(x)], vec![1, 0, 0, 0, neg7], sp());
    assert_eq!(w.gates.len(), 0);
    assert!(w.pending_generic_gate.is_some());
    let y = w.new_internal_var(Value::Constant(9), sp());
    w.add_generic_gate("second", vec![Some(y)], vec![1, 0, 0, 0, neg9], sp());
    assert_eq!(w.gates.len(), 1);
    assert!(w.pending_generic_gate.is_none());
    assert_eq!(w.gates[0].coeffs, vec![1, 0, 0, 0, neg7, 1, 0, 0, 0, neg9]);
    let row = &w.rows_of_vars[0];
    assert_eq!(row.len(), 6);
    assert_eq!(row[0], Some(x));
    assert_eq!(row[1], None);
    assert_eq!(row[2], None);
    assert_eq!(row[3], Some(y));
    // with it off, the same logical gates take one row each, unpadded
    let mut w2 = CircuitWriter::new(false);
    let x2 = w2.new_internal_var(Value::Constant(7), sp());
    w2.add_generic_gate("first", vec![Some(x2)], vec![1, 0, 0, 0, neg7], sp());
    let y2 = w2.new_internal_var(Value::Constant(9), sp());
    w2.add_generic_gate("second", vec![Some(y2)], vec![1, 0, 0, 0, neg9], sp());
    assert_eq!(w2.gates.len(), 2);
    assert_eq!(w2.gates[0].coeffs, vec![1, 0, 0, 0, neg7]);
    assert_eq!(w2.gates[1].coeffs, vec![1, 0, 0, 0, neg9]);
    assert_eq!(w2.rows_of_vars[0], vec![Some(x2)]);
    assert_eq!(w2.rows_of_vars[1], vec![Some(y2)]);
}

#[test]
fn wiring_forms_closed_cycle() {
    // `return input + input` makes the input cell appear in three positions
    let m = one_fn_module(
        vec![pub_arg(TyKind::Field)],
        Some(field_ty()),
        Some(Expr::Add(Box::new(Expr::Arg(0)), Box::new(Expr::Arg(0)))),
    );
    let compiled = CircuitWriter::generate_circuit(m).unwrap();
    let table = compiled.compute_permutation().unwrap();
    let input_class = &compiled.circuit.wiring[0];
    assert_eq!(input_class.len(), 3);
    // following the back-references from any member visits the whole class
    // and returns to the start after exactly as many steps as it has members
    for start in 0..input_class.len() {
        let mut cur = input_class[start].cell;
        for step in 1..=input_class.len() {
            cur = table[cur.row][cur.col];
            let back = cur == input_class[start].cell;
            assert_eq!(back, step == input_class.len());
            assert!(input_class.iter().any(|ac| ac.cell == cur));
        }
    }
}

#[test]
fn single_cell_wiring_class_rejected() {
    let mut table = vec![vec![
        Cell { row: 0, col: 0 },
        Cell { row: 0, col: 1 },
        Cell { row: 0, col: 2 },
    ]];
    let class = vec![AnnotatedCell { cell: Cell { row: 0, col: 1 }, debug: "lonely" }];
    let err = close_cycle(&mut table, &class).unwrap_err();
    assert_eq!(err.kind, ErrorKind::InvalidWiring);
    // a two-member class closes into a cycle
    let class2 = vec![
        AnnotatedCell { cell: Cell { row: 0, col: 0 }, debug: "a" },
        AnnotatedCell { cell: Cell { row: 0, col: 2 }, debug: "b" },
    ];
    close_cycle(&mut table, &class2).unwrap();
    assert_eq!(table[0][2], Cell { row: 0, col: 0 });
    assert_eq!(table[0][0], Cell { row: 0, col: 2 });
    assert_eq!(table[0][1], Cell { row: 0, col: 1 });
}

#[test]
fn bool_input_constrained() {
    let m = one_fn_module(vec![pub_arg(TyKind::Bool)], None, None);
    let compiled = CircuitWriter::generate_circuit(m).unwrap();
    let w = compiled.generate_witness(&vec![1], &vec![]).unwrap();
    assert!(compiled.check_witness(&w.all_witness, &vec![1]));
    let w0 = compiled.generate_witness(&vec![0], &vec![]).unwrap();
    assert!(compiled.check_witness(&w0.all_witness, &vec![0]));
}

#[test]
fn module_constants_cached_once() {
    let m = TypedModule {
        constants: vec![5, 5, 6],
        main: Some(Function {
            sig: FnSig { arguments: vec![pub_arg(TyKind::Field)], return_type: None },
            body: None,
            span: sp(),
        }),
    };
    let compiled = CircuitWriter::generate_circuit(m).unwrap();
    // the duplicate constant reuses the cached constrained cell
    assert_eq!(compiled.circuit.cached_constants.len(), 2);
}

#[test]
fn array_input_width() {
    // a public array of three field elements takes three input slots
    let m = one_fn_module(vec![pub_arg(TyKind::FieldArray(3))], None, None);
    let compiled = CircuitWriter::generate_circuit(m).unwrap();
    assert_eq!(compiled.circuit.public_input_size, 3);
    let w = compiled.generate_witness(&vec![10, 20, 30], &vec![]).unwrap();
    assert_eq!(w.full_public_inputs, vec![10, 20, 30]);
    assert!(compiled.check_witness(&w.all_witness, &vec![10, 20, 30]));
    assert!(!compiled.check_witness(&w.all_witness, &vec![10, 20, 31]));
}

#[test]
fn constant_fold_and_cache_in_body() {
    // `return 2 + 3` folds to a constant, which is then pinned and cached
    let m = one_fn_module(
        vec![pub_arg(TyKind::Field)],
        Some(field_ty()),
        Some(Expr::Add(Box::new(Expr::Const(2)), Box::new(Expr::Const(3)))),
    );
    let compiled = CircuitWriter::generate_circuit(m).unwrap();
    let w = compiled.generate_witness(&vec![9], &vec![]).unwrap();
    assert_eq!(w.public_outputs, vec![5]);
    assert_eq!(w.full_public_inputs, vec![9, 5]);
    assert!(compiled.check_witness(&w.all_witness, &vec![9, 5]));
}

#[test]
fn addition_wraps_at_modulus() {
    let m = one_fn_module(
        vec![pub_arg(TyKind::Field)],
        Some(field_ty()),
        Some(Expr::Add(Box::new(Expr::Arg(0)), Box::new(Expr::Const(1)))),
    );
    let compiled = CircuitWriter::generate_circuit(m).unwrap();
    let w = compiled.generate_witness(&vec![FIELD_MODULUS - 1], &vec![]).unwrap();
    assert_eq!(w.public_outputs, vec![0]);
}

#[test]
fn module_validator() {
    assert!(check_module_supported(&increment_module()));
    let bad_const = TypedModule { constants: vec![FIELD_MODULUS], main: None };
    assert!(!check_module_supported(&bad_const));
    let bad_expr =
        one_fn_module(vec![pub_arg(TyKind::FieldArray(2))], Some(field_ty()), Some(Expr::Arg(0)));
    assert!(!check_module_supported(&bad_expr));
}

#[test]
fn unused_private_array_rejected() {
    let m = one_fn_module(vec![priv_arg(TyKind::FieldArray(2)), pub_arg(TyKind::Field)], None, None);
    let err = CircuitWriter::generate_circuit(m).unwrap_err();
    assert_eq!(err.kind, ErrorKind::PrivateInputNotUsed);
}
