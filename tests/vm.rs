use rune::budget;
use rune::value::{partial_eq, AnyRef, BinOp, TypeKind, Value, ValueError};
use rune::vm::{tuple_index_get, Halt, Inline, Inst, Output, ProtocolFn, Unit, Vm, VmError, Wrap};

fn unit(instructions: Vec<Inst>) -> Unit {
    Unit { instructions, protocols: Vec::new() }
}

fn same(a: &Value, b: &Value) -> bool {
    partial_eq(a, b) == Ok(true)
}

fn arithmetic() -> Vec<Inst> {
    vec![
        Inst::Allocate { size: 2 },
        Inst::Store { value: Inline::Integer(3), out: Output::Keep(0) },
        Inst::Store { value: Inline::Integer(4), out: Output::Keep(1) },
        Inst::Op { op: BinOp::Mul, a: 0, b: 1, out: Output::Keep(0) },
        Inst::Store { value: Inline::Integer(2), out: Output::Keep(1) },
        Inst::Op { op: BinOp::Add, a: 1, b: 0, out: Output::Keep(0) },
        Inst::Return { addr: 0 },
    ]
}

#[test]
fn arithmetic_and_return() {
    let unit = unit(arithmetic());
    let mut vm = Vm::new(0);
    let mut guard = budget::acquire();
    let halt = vm.run(&unit, &mut guard).unwrap();
    assert_eq!(halt, Halt::Exited(Output::Keep(0)));
    assert!(same(&vm.value_at(Output::Keep(0)).unwrap(), &Value::Integer(14)));
    assert_eq!(vm.stack_len(), 1);
}

#[test]
fn budget_of_exactly_the_steps_completes() {
    let unit = unit(arithmetic());
    let mut vm = Vm::new(0);
    let mut guard = budget::replace(7);
    assert_eq!(vm.run(&unit, &mut guard), Ok(Halt::Exited(Output::Keep(0))));

    let mut vm = Vm::new(0);
    let mut guard = budget::replace(6);
    assert_eq!(vm.run(&unit, &mut guard), Ok(Halt::Limited));
    assert_eq!(guard.get(), 0);
    assert_eq!(vm.ip(), 6);
    let mut guard = budget::replace(1);
    assert_eq!(vm.run(&unit, &mut guard), Ok(Halt::Exited(Output::Keep(0))));
    assert!(same(&vm.value_at(Output::Keep(0)).unwrap(), &Value::Integer(14)));
}

#[test]
fn endless_loop_is_limited() {
    let unit = unit(vec![
        Inst::Allocate { size: 2 },
        Inst::Store { value: Inline::Integer(0), out: Output::Keep(0) },
        Inst::Store { value: Inline::Integer(1), out: Output::Keep(1) },
        Inst::Op { op: BinOp::Add, a: 0, b: 1, out: Output::Keep(0) },
        Inst::Jump { jump: 3 },
    ]);
    let mut vm = Vm::new(0);
    let mut guard = budget::replace(1000);
    assert_eq!(vm.run(&unit, &mut guard), Ok(Halt::Limited));
    assert_eq!(guard.get(), 0);
    let counter = vm.value_at(Output::Keep(0)).unwrap();
    assert!(same(&counter, &Value::Integer(499)));
}

fn try_program() -> Vec<Inst> {
    vec![
        Inst::Allocate { size: 1 },
        Inst::Store { value: Inline::Integer(-1), out: Output::Keep(0) },
        Inst::Call { offset: 5, addr: 0, args: 1, out: Output::Keep(0) },
        Inst::Try { addr: 0, out: Output::Keep(0) },
        Inst::Return { addr: 0 },
        Inst::Allocate { size: 1 },
        Inst::Store { value: Inline::Integer(0), out: Output::Keep(1) },
        Inst::Op { op: BinOp::Lt, a: 0, b: 1, out: Output::Keep(1) },
        Inst::JumpIfNot { cond: 1, jump: 11 },
        Inst::Wrap { wrap: Wrap::ResultErr, addr: 0, out: Output::Keep(1) },
        Inst::Return { addr: 1 },
        Inst::Store { value: Inline::Integer(2), out: Output::Keep(1) },
        Inst::Op { op: BinOp::Mul, a: 0, b: 1, out: Output::Keep(1) },
        Inst::Wrap { wrap: Wrap::ResultOk, addr: 1, out: Output::Keep(1) },
        Inst::Return { addr: 1 },
    ]
}

#[test]
fn try_returns_the_error() {
    let unit = unit(try_program());
    let mut vm = Vm::new(0);
    let mut guard = budget::acquire();
    let halt = vm.run(&unit, &mut guard).unwrap();
    let out = match halt {
        Halt::Exited(out) => out,
        other => panic!("{other:?}"),
    };
    let v = vm.value_at(out).unwrap();
    assert!(same(&v, &Value::Result(Err(Box::new(Value::Integer(-1))))));
    assert_eq!(vm.call_frames(), 0);
}

#[test]
fn try_unwraps_ok() {
    let mut code = try_program();
    code[1] = Inst::Store { value: Inline::Integer(21), out: Output::Keep(0) };
    let unit = unit(code);
    let mut vm = Vm::new(0);
    let mut guard = budget::acquire();
    let out = match vm.run(&unit, &mut guard).unwrap() {
        Halt::Exited(out) => out,
        other => panic!("{other:?}"),
    };
    assert!(same(&vm.value_at(out).unwrap(), &Value::Integer(42)));
}

#[test]
fn return_restores_the_caller_frame() {
    let unit = unit(try_program());
    let mut vm = Vm::new(0);
    let mut guard = budget::replace(3);
    assert_eq!(vm.run(&unit, &mut guard), Ok(Halt::Limited));
    assert_eq!(vm.call_frames(), 1);
    assert_eq!(vm.top(), 1);
    assert_eq!(vm.ip(), 5);
    let mut guard = budget::replace(6);
    assert_eq!(vm.run(&unit, &mut guard), Ok(Halt::Limited));
    assert_eq!(vm.call_frames(), 0);
    assert_eq!(vm.top(), 0);
    assert_eq!(vm.stack_len(), 1);
    assert_eq!(vm.ip(), 3);
}

#[test]
fn protocol_handler_answers_for_host_objects() {
    let foo = Value::Any(AnyRef { type_hash: 42, slot: 0 });
    let code = vec![
        Inst::Allocate { size: 1 },
        Inst::Store { value: Inline::Integer(5), out: Output::Keep(1) },
        Inst::Op { op: BinOp::Mul, a: 0, b: 1, out: Output::Keep(0) },
        Inst::Return { addr: 0 },
        Inst::Allocate { size: 1 },
        Inst::Store { value: Inline::Integer(25), out: Output::Keep(2) },
        Inst::Return { addr: 2 },
    ];
    let with_handler = Unit {
        instructions: code.clone(),
        protocols: vec![ProtocolFn { type_hash: 42, op: BinOp::Mul, offset: 4 }],
    };
    let mut vm = Vm::new(0);
    vm.push(rune::value::clone_value(&foo));
    let mut guard = budget::acquire();
    let out = match vm.run(&with_handler, &mut guard).unwrap() {
        Halt::Exited(out) => out,
        other => panic!("{other:?}"),
    };
    assert!(same(&vm.value_at(out).unwrap(), &Value::Integer(25)));

    let without = Unit { instructions: code, protocols: Vec::new() };
    let mut vm = Vm::new(0);
    vm.push(foo);
    let mut guard = budget::acquire();
    assert_eq!(
        vm.run(&without, &mut guard),
        Err(VmError::Value(ValueError::UnsupportedBinaryOperation {
            op: BinOp::Mul,
            lhs: TypeKind::Any(42),
            rhs: TypeKind::Integer,
        }))
    );
}

#[test]
fn inline_values_ignore_protocols() {
    let code = arithmetic();
    let with_handler = Unit {
        instructions: code,
        protocols: vec![ProtocolFn { type_hash: 0, op: BinOp::Mul, offset: 0 }],
    };
    let mut vm = Vm::new(0);
    let mut guard = budget::acquire();
    assert_eq!(vm.run(&with_handler, &mut guard), Ok(Halt::Exited(Output::Keep(0))));
    assert!(same(&vm.value_at(Output::Keep(0)).unwrap(), &Value::Integer(14)));
}

#[test]
fn runtime_errors() {
    let overflow = unit(vec![
        Inst::Allocate { size: 2 },
        Inst::Store { value: Inline::Integer(i64::MAX), out: Output::Keep(0) },
        Inst::Store { value: Inline::Integer(1), out: Output::Keep(1) },
        Inst::Op { op: BinOp::Add, a: 0, b: 1, out: Output::Keep(0) },
    ]);
    let mut vm = Vm::new(0);
    let mut guard = budget::acquire();
    assert_eq!(vm.run(&overflow, &mut guard), Err(VmError::Value(ValueError::Overflow)));

    let div = unit(vec![
        Inst::Allocate { size: 2 },
        Inst::Store { value: Inline::Integer(7), out: Output::Keep(0) },
        Inst::Store { value: Inline::Integer(0), out: Output::Keep(1) },
        Inst::Op { op: BinOp::Div, a: 0, b: 1, out: Output::Keep(0) },
    ]);
    let mut vm = Vm::new(0);
    let mut guard = budget::acquire();
    assert_eq!(vm.run(&div, &mut guard), Err(VmError::Value(ValueError::DivideByZero)));

    let mut vm = Vm::new(0);
    let mut guard = budget::acquire();
    assert_eq!(
        vm.run(&unit(vec![Inst::Copy { addr: 3, out: Output::Discard }]), &mut guard),
        Err(VmError::StackOutOfBounds { addr: 3 })
    );
    let mut vm = Vm::new(5);
    assert_eq!(vm.run(&unit(vec![]), &mut guard), Err(VmError::IpOutOfBounds { ip: 5 }));
    let mut vm = Vm::new(0);
    assert_eq!(vm.run(&unit(vec![Inst::Panic { reason: 3 }]), &mut guard), Err(VmError::Panic { reason: 3 }));
    let mut vm = Vm::new(0);
    assert_eq!(
        vm.run(
            &unit(vec![
                Inst::Allocate { size: 1 },
                Inst::JumpIf { cond: 0, jump: 0 },
            ]),
            &mut guard
        ),
        Err(VmError::ExpectedBool { actual: TypeKind::Unit })
    );
    let mut vm = Vm::new(0);
    assert_eq!(
        vm.run(
            &unit(vec![Inst::Allocate { size: 1 }, Inst::Try { addr: 0, out: Output::Discard }]),
            &mut guard
        ),
        Err(VmError::UnsupportedTryOperand { actual: TypeKind::Unit })
    );
}

#[test]
fn division_truncates_toward_zero() {
    let v = rune::value::inline_op(BinOp::Div, &Value::Integer(-7), &Value::Integer(2));
    assert!(matches!(v, Some(Ok(Value::Integer(-3)))));
    let v = rune::value::inline_op(BinOp::Rem, &Value::Integer(-7), &Value::Integer(2));
    assert!(matches!(v, Some(Ok(Value::Integer(-1)))));
    let v = rune::value::inline_op(BinOp::Div, &Value::Integer(i64::MIN), &Value::Integer(-1));
    assert!(matches!(v, Some(Err(ValueError::Overflow))));
    let v = rune::value::inline_op(BinOp::Sub, &Value::Unsigned(1), &Value::Unsigned(2));
    assert!(matches!(v, Some(Err(ValueError::Overflow))));
    let v = rune::value::inline_op(BinOp::Le, &Value::Unsigned(2), &Value::Unsigned(2));
    assert!(matches!(v, Some(Ok(Value::Bool(true)))));
    assert!(rune::value::inline_op(BinOp::Add, &Value::Integer(1), &Value::Unsigned(1)).is_none());
}

#[test]
fn equality_is_reflexive_and_rejects_mixed_kinds() {
    let v = Value::Option(Some(Box::new(Value::Result(Ok(Box::new(Value::Char('x')))))));
    assert_eq!(partial_eq(&v, &v), Ok(true));
    assert_eq!(partial_eq(&Value::Unit, &Value::Unit), Ok(true));
    assert_eq!(partial_eq(&Value::Integer(1), &Value::Integer(2)), Ok(false));
    assert_eq!(
        partial_eq(&Value::Integer(1), &Value::Bool(true)),
        Err(ValueError::UnsupportedBinaryOperation {
            op: BinOp::Eq,
            lhs: TypeKind::Integer,
            rhs: TypeKind::Bool,
        })
    );
}

#[test]
fn isolation_flags() {
    assert_eq!(rune::vm::Isolated::new(true), rune::vm::Isolated::Isolated);
    assert_eq!(rune::vm::Isolated::new(false).then_some(1), None);
    assert_eq!(rune::vm::Isolated::Isolated.then_some(1), Some(1));
}

#[test]
fn generator_yields_and_resumes() {
    let unit = unit(vec![
        Inst::Allocate { size: 2 },
        Inst::Store { value: Inline::Integer(1), out: Output::Keep(0) },
        Inst::Yield { addr: 0, out: Output::Keep(1) },
        Inst::Store { value: Inline::Integer(2), out: Output::Keep(0) },
        Inst::Yield { addr: 0, out: Output::Keep(1) },
        Inst::Store { value: Inline::Integer(3), out: Output::Keep(0) },
        Inst::Yield { addr: 0, out: Output::Keep(1) },
        Inst::ReturnUnit,
    ]);
    let mut vm = Vm::new(0);
    let mut guard = budget::acquire();
    let mut sum = 0;
    let mut resumed = 0;
    loop {
        match vm.run(&unit, &mut guard).unwrap() {
            Halt::Yielded { value, resume } => {
                match vm.value_at(value).unwrap() {
                    Value::Integer(n) => sum += n,
                    other => panic!("{other:?}"),
                }
                vm.store(resume, Value::Integer(resumed)).unwrap();
                resumed += 1;
            }
            Halt::Exited(out) => {
                assert!(same(&vm.value_at(out).unwrap(), &Value::Unit));
                break;
            }
            Halt::Limited => panic!("limited"),
        }
    }
    assert_eq!(sum, 6);
    assert_eq!(resumed, 3);
}

#[test]
fn host_call_returns_through_an_isolated_frame() {
    let unit = unit(vec![
        Inst::Allocate { size: 1 },
        Inst::Store { value: Inline::Integer(2), out: Output::Keep(1) },
        Inst::Op { op: BinOp::Mul, a: 0, b: 1, out: Output::Keep(1) },
        Inst::Return { addr: 1 },
    ]);
    let mut vm = Vm::new(0);
    let mut guard = budget::replace(100);
    let halt = vm.call(&unit, 0, vec![Value::Integer(21)], &mut guard).unwrap();
    assert_eq!(halt, Halt::Exited(Output::Keep(0)));
    assert!(same(&vm.value_at(Output::Keep(0)).unwrap(), &Value::Integer(42)));
    assert_eq!(vm.call_frames(), 0);
    assert_eq!(vm.stack_len(), 1);
    assert_eq!(guard.get(), 96);
}

#[test]
fn tuple_fields_of_results_and_options() {
    let ok = Value::Result(Ok(Box::new(Value::Integer(3))));
    assert!(matches!(tuple_index_get(&ok, 0), Ok(Some(Value::Integer(3)))));
    assert_eq!(
        tuple_index_get(&ok, 1).unwrap_err(),
        VmError::MissingIndexInteger { target: TypeKind::Result, index: 1 }
    );
    assert_eq!(
        tuple_index_get(&Value::Option(None), 0).unwrap_err(),
        VmError::MissingIndexInteger { target: TypeKind::Option, index: 0 }
    );
    assert_eq!(
        tuple_index_get(&Value::Unit, 0).unwrap_err(),
        VmError::MissingIndexInteger { target: TypeKind::Unit, index: 0 }
    );
    assert!(matches!(tuple_index_get(&Value::Integer(1), 0), Ok(None)));

    let unit = unit(vec![
        Inst::Allocate { size: 1 },
        Inst::Store { value: Inline::Integer(9), out: Output::Keep(0) },
        Inst::Wrap { wrap: Wrap::OptionSome, addr: 0, out: Output::Keep(0) },
        Inst::TupleIndexGet { addr: 0, index: 0, out: Output::Keep(0) },
        Inst::Return { addr: 0 },
    ]);
    let mut vm = Vm::new(0);
    let mut guard = budget::acquire();
    assert_eq!(vm.run(&unit, &mut guard), Ok(Halt::Exited(Output::Keep(0))));
    assert!(same(&vm.value_at(Output::Keep(0)).unwrap(), &Value::Integer(9)));
}
