use tootvm::bytecode::{LiteralValue, Module, ModuleItem, OpError, Program, RealRequest};
use tootvm::datamodel::{Heap, Real, Value, ValueType};
use tootvm::stage0::{
    BinaryOp, BinaryOpType, Expr, Function, If, IfElse, Loop, Span, Statement, UnaryOp,
    UnaryOpType, Var,
};
use tootvm::{VirtualMachine, VmState};

fn lit(i: i64) -> Expr {
    Expr::LiteralValue(Span { span: (), inner: LiteralValue::Integer(i) })
}

fn real_lit(x: f64) -> Expr {
    Expr::LiteralValue(Span { span: (), inner: LiteralValue::Real(Real::from_bits(x.to_bits())) })
}

fn nil() -> Expr {
    Expr::LiteralValue(Span { span: (), inner: LiteralValue::Nil })
}

fn var(v: Var) -> Expr {
    Expr::Var(Span { span: (), inner: v })
}

fn binary(op_type: BinaryOpType, lhs: Expr, rhs: Expr) -> Expr {
    Expr::BinaryOp(BinaryOp { op_type, lhs: Box::new(lhs), rhs: Box::new(rhs) })
}

fn unary(op_type: UnaryOpType, expr: Expr) -> Expr {
    Expr::UnaryOp(UnaryOp { op_type, expr: Box::new(expr) })
}

fn assign(v: Var, value: Expr) -> Statement {
    Statement::Assign { place: Box::new(var(v)), value: Box::new(value) }
}

/// Compiles a function without arguments and loads it as the only item of
/// the only module of a program. Returns the machine that is about to run
/// it.
fn load(body: Vec<Statement>, heap: &mut Heap) -> VirtualMachine {
    let compiled = match (Function { args: vec![], body }).try_compile() {
        Some(f) => f,
        None => panic!("the function cannot be compiled"),
    };
    let program = Program { modules: vec![Module { items: vec![ModuleItem::Function(compiled)] }] };
    let root = program.into_tuple(heap);
    let module = match root.get(heap, 0) {
        Some(Value::Tuple(t)) => t,
        other => panic!("no module: {:?}", other),
    };
    let func = match module.get(heap, 0) {
        Some(Value::Function(f)) => f,
        other => panic!("no function: {:?}", other),
    };
    VirtualMachine::new(func, heap)
}

/// Does the arithmetic that the machine leaves to its host.
fn host_arithmetic(request: RealRequest) -> Real {
    let f = |r: Real| f64::from_bits(r.to_bits());
    let x = match request {
        RealRequest::Add(a, b) => f(a) + f(b),
        RealRequest::Sub(a, b) => f(a) - f(b),
        RealRequest::Mul(a, b) => f(a) * f(b),
        RealRequest::Div(a, b) => f(a) / f(b),
        RealRequest::Rem(a, b) => f(a) % f(b),
        RealRequest::Floor(a) => f(a).floor(),
        RealRequest::Ceil(a) => f(a).ceil(),
        RealRequest::Trunc(a) => f(a).trunc(),
        RealRequest::Round(a) => f(a).round(),
        RealRequest::FromInteger(i) => i as f64,
    };
    Real::from_bits(x.to_bits())
}

/// Runs the machine to its end, doing the host's part on the way.
fn finish(vm: &mut VirtualMachine, heap: &mut Heap) -> Result<Value, OpError> {
    loop {
        match vm.run_until_exited(heap, 10_000)? {
            VmState::Exited(v) => return Ok(v),
            VmState::Real(request) => vm.push(Value::Real(host_arithmetic(request))),
            VmState::CallNative(_, _) => panic!("no native routine in these programs"),
            VmState::Running => panic!("the program does not end"),
        }
    }
}

fn run(body: Vec<Statement>) -> Result<Value, OpError> {
    let mut heap = Heap::new();
    let mut vm = load(body, &mut heap);
    finish(&mut vm, &mut heap)
}

#[test]
fn returns_the_sum_of_two_literals() {
    let r = run(vec![Statement::Return(binary(BinaryOpType::Add, lit(1), lit(2)))]);
    assert_eq!(r, Ok(Value::Integer(3)));
}

#[test]
fn product_of_a_difference_and_a_sum() {
    let e = binary(
        BinaryOpType::Mul,
        binary(BinaryOpType::Sub, lit(5), lit(1)),
        binary(BinaryOpType::Add, lit(4), lit(2)),
    );
    assert_eq!(run(vec![Statement::Return(e)]), Ok(Value::Integer(24)));
}

#[test]
fn logic_or_does_not_evaluate_its_right_side_when_the_left_is_true() {
    let e = binary(BinaryOpType::LogicOr, lit(1), binary(BinaryOpType::Div, lit(1), lit(0)));
    assert_eq!(run(vec![Statement::Return(e)]), Ok(Value::Integer(1)));
}

#[test]
fn division_by_zero_is_an_error_when_it_is_evaluated() {
    let e = binary(BinaryOpType::LogicOr, lit(0), binary(BinaryOpType::Div, lit(1), lit(0)));
    assert_eq!(run(vec![Statement::Return(e)]), Err(OpError::BadType(ValueType::Integer)));
}

#[test]
fn logic_and_does_not_evaluate_its_right_side_when_the_left_is_false() {
    let e = binary(BinaryOpType::LogicAnd, lit(0), binary(BinaryOpType::Div, lit(1), lit(0)));
    assert_eq!(run(vec![Statement::Return(e)]), Ok(Value::Integer(0)));
}

#[test]
fn logic_operators_give_zero_or_one() {
    let and = |a, b| run(vec![Statement::Return(binary(BinaryOpType::LogicAnd, lit(a), lit(b)))]);
    let or = |a, b| run(vec![Statement::Return(binary(BinaryOpType::LogicOr, lit(a), lit(b)))]);
    assert_eq!(and(2, 7), Ok(Value::Integer(1)));
    assert_eq!(and(2, 0), Ok(Value::Integer(0)));
    assert_eq!(and(0, 7), Ok(Value::Integer(0)));
    assert_eq!(or(0, 7), Ok(Value::Integer(1)));
    assert_eq!(or(-3, 0), Ok(Value::Integer(1)));
    assert_eq!(or(0, 0), Ok(Value::Integer(0)));
}

#[test]
fn comparisons_give_zero_or_one() {
    let cmp = |t, a, b| run(vec![Statement::Return(binary(t, lit(a), lit(b)))]);
    assert_eq!(cmp(BinaryOpType::Equal, 3, 3), Ok(Value::Integer(1)));
    assert_eq!(cmp(BinaryOpType::Equal, 3, 4), Ok(Value::Integer(0)));
    assert_eq!(cmp(BinaryOpType::NotEqual, 3, 3), Ok(Value::Integer(0)));
    assert_eq!(cmp(BinaryOpType::NotEqual, 3, 4), Ok(Value::Integer(1)));
    assert_eq!(cmp(BinaryOpType::Greater, 4, 3), Ok(Value::Integer(1)));
    assert_eq!(cmp(BinaryOpType::Greater, 3, 3), Ok(Value::Integer(0)));
    assert_eq!(cmp(BinaryOpType::Greater, 2, 3), Ok(Value::Integer(0)));
    assert_eq!(cmp(BinaryOpType::GreaterOrEqual, 4, 3), Ok(Value::Integer(1)));
    assert_eq!(cmp(BinaryOpType::GreaterOrEqual, 3, 3), Ok(Value::Integer(1)));
    assert_eq!(cmp(BinaryOpType::GreaterOrEqual, 2, 3), Ok(Value::Integer(0)));
    assert_eq!(cmp(BinaryOpType::Less, 2, 3), Ok(Value::Integer(1)));
    assert_eq!(cmp(BinaryOpType::Less, 3, 3), Ok(Value::Integer(0)));
    assert_eq!(cmp(BinaryOpType::Less, 4, 3), Ok(Value::Integer(0)));
    assert_eq!(cmp(BinaryOpType::LessOrEqual, 2, 3), Ok(Value::Integer(1)));
    assert_eq!(cmp(BinaryOpType::LessOrEqual, 3, 3), Ok(Value::Integer(1)));
    assert_eq!(cmp(BinaryOpType::LessOrEqual, 4, 3), Ok(Value::Integer(0)));
    assert_eq!(cmp(BinaryOpType::Identity, 2, 3), Ok(Value::Integer(-1)));
    assert_eq!(cmp(BinaryOpType::Identity, 3, 3), Ok(Value::Integer(0)));
    assert_eq!(cmp(BinaryOpType::Identity, 4, 3), Ok(Value::Integer(1)));
}

#[test]
fn logic_not_turns_zero_into_one() {
    let not = |a| run(vec![Statement::Return(unary(UnaryOpType::LogicNot, lit(a)))]);
    assert_eq!(not(0), Ok(Value::Integer(1)));
    assert_eq!(not(5), Ok(Value::Integer(0)));
}

#[test]
fn loop_with_break_sums_until_the_sum_exceeds_twenty() {
    let sum: Var = 0;
    let i: Var = 1;
    let body = vec![
        Statement::BindVar(sum),
        assign(sum, lit(0)),
        Statement::BindVar(i),
        assign(i, lit(0)),
        Statement::Loop(Loop {
            condition: Some(binary(BinaryOpType::Less, var(i), lit(10))),
            label: None,
            body: vec![
                assign(sum, binary(BinaryOpType::Add, var(sum), var(i))),
                Statement::IfElse(IfElse {
                    if_: If {
                        condition: binary(BinaryOpType::Greater, var(sum), lit(20)),
                        body: vec![Statement::Break { label: None }],
                    },
                    else_if: vec![],
                    else_: vec![],
                }),
                assign(i, binary(BinaryOpType::Add, var(i), lit(1))),
            ],
        }),
        Statement::Return(var(sum)),
    ];
    assert_eq!(run(body), Ok(Value::Integer(21)));
}

#[test]
fn loop_without_break_runs_while_its_condition_holds() {
    let sum: Var = 0;
    let i: Var = 1;
    let body = vec![
        Statement::BindVar(sum),
        assign(sum, lit(0)),
        Statement::BindVar(i),
        assign(i, lit(0)),
        Statement::Loop(Loop {
            condition: Some(binary(BinaryOpType::Less, var(i), lit(10))),
            label: Some(7),
            body: vec![
                assign(i, binary(BinaryOpType::Add, var(i), lit(1))),
                Statement::IfElse(IfElse {
                    if_: If {
                        condition: binary(
                            BinaryOpType::Equal,
                            binary(BinaryOpType::Rem, var(i), lit(2)),
                            lit(0),
                        ),
                        body: vec![Statement::Continue { label: Some(7) }],
                    },
                    else_if: vec![],
                    else_: vec![],
                }),
                assign(sum, binary(BinaryOpType::Add, var(sum), var(i))),
            ],
        }),
        Statement::Return(var(sum)),
    ];
    // 1 + 3 + 5 + 7 + 9
    assert_eq!(run(body), Ok(Value::Integer(25)));
}

#[test]
fn if_else_takes_the_first_branch_whose_condition_holds() {
    let pick = |x: i64| {
        run(vec![Statement::IfElse(IfElse {
            if_: If {
                condition: binary(BinaryOpType::Less, lit(x), lit(0)),
                body: vec![Statement::Return(lit(-1))],
            },
            else_if: vec![
                If {
                    condition: binary(BinaryOpType::Equal, lit(x), lit(0)),
                    body: vec![Statement::Return(lit(0))],
                },
                If {
                    condition: binary(BinaryOpType::Less, lit(x), lit(10)),
                    body: vec![Statement::Return(lit(1))],
                },
            ],
            else_: vec![Statement::Return(lit(2))],
        })])
    };
    assert_eq!(pick(-5), Ok(Value::Integer(-1)));
    assert_eq!(pick(0), Ok(Value::Integer(0)));
    assert_eq!(pick(5), Ok(Value::Integer(1)));
    assert_eq!(pick(50), Ok(Value::Integer(2)));
}

#[test]
fn function_without_return_gives_nothing() {
    assert_eq!(run(vec![Statement::Expr(lit(1))]), Ok(Value::Nil));
}

/// A table of the pairs `(1, 10)`, `(3, 30)`, `(2, 20)`, in this order. A
/// tuple takes the value that was pushed last as its first cell, and so does
/// a list its first item.
fn table_of_three() -> Expr {
    let pair = |k: i64, v: i64| Expr::TupleCreate(vec![lit(v), lit(k)]);
    Expr::TableCreate(Box::new(Expr::ListCreate(vec![pair(2, 20), pair(3, 30), pair(1, 10)])))
}

#[test]
fn table_gives_the_value_under_a_key() {
    let t: Var = 0;
    let body = vec![
        Statement::BindVar(t),
        assign(t, table_of_three()),
        Statement::Return(Expr::SeqIndex { seq: Box::new(var(t)), index: Box::new(lit(2)) }),
    ];
    assert_eq!(run(body), Ok(Value::Integer(20)));
}

#[test]
fn table_loses_a_key_that_is_set_to_nothing() {
    let t: Var = 0;
    let body = vec![
        Statement::BindVar(t),
        assign(t, table_of_three()),
        Statement::Assign {
            place: Box::new(Expr::SeqIndex { seq: Box::new(var(t)), index: Box::new(lit(2)) }),
            value: Box::new(nil()),
        },
        Statement::Return(Expr::SeqIndex { seq: Box::new(var(t)), index: Box::new(lit(2)) }),
    ];
    assert_eq!(run(body), Ok(Value::Nil));
}

#[test]
fn table_keeps_the_other_keys_when_one_is_removed() {
    let t: Var = 0;
    let body = vec![
        Statement::BindVar(t),
        assign(t, table_of_three()),
        Statement::Assign {
            place: Box::new(Expr::SeqIndex { seq: Box::new(var(t)), index: Box::new(lit(2)) }),
            value: Box::new(nil()),
        },
        Statement::Return(binary(
            BinaryOpType::Add,
            Expr::SeqIndex { seq: Box::new(var(t)), index: Box::new(lit(1)) },
            Expr::SeqIndex { seq: Box::new(var(t)), index: Box::new(lit(3)) },
        )),
    ];
    assert_eq!(run(body), Ok(Value::Integer(40)));
}

#[test]
fn two_variables_that_hold_one_list_see_each_others_writes() {
    let x: Var = 0;
    let y: Var = 1;
    let body = vec![
        Statement::BindVar(x),
        assign(x, Expr::ListCreate(vec![lit(2), lit(1)])),
        Statement::BindVar(y),
        assign(y, var(x)),
        Statement::ListPush { list: Box::new(var(y)), value: Box::new(lit(3)) },
        Statement::Return(Expr::SeqLen { seq: Box::new(var(x)) }),
    ];
    assert_eq!(run(body), Ok(Value::Integer(3)));
}

#[test]
fn weak_handle_upgrades_while_the_tuple_is_held() {
    let t: Var = 0;
    let w: Var = 1;
    let body = vec![
        Statement::BindVar(t),
        assign(t, Expr::TupleCreate(vec![lit(7)])),
        Statement::BindVar(w),
        assign(w, Expr::TupleWeakRef(Box::new(var(t)))),
        Statement::Return(Expr::SeqIndex {
            seq: Box::new(Expr::TupleWeakUpgrade(Box::new(var(w)))),
            index: Box::new(lit(0)),
        }),
    ];
    assert_eq!(run(body), Ok(Value::Integer(7)));
}

#[test]
fn weak_handle_gives_nothing_once_the_tuple_is_gone() {
    let t: Var = 0;
    let w: Var = 1;
    let body = vec![
        Statement::BindVar(t),
        assign(t, Expr::TupleCreate(vec![lit(7)])),
        Statement::BindVar(w),
        assign(w, Expr::TupleWeakRef(Box::new(var(t)))),
        assign(t, nil()),
        Statement::Return(Expr::TupleWeakUpgrade(Box::new(var(w)))),
    ];
    assert_eq!(run(body), Ok(Value::Nil));
}

#[test]
fn weak_handle_to_a_tuple_that_nothing_holds_is_dead_at_once() {
    let body = vec![Statement::Return(Expr::TupleWeakUpgrade(Box::new(Expr::TupleWeakRef(
        Box::new(Expr::TupleCreate(vec![lit(7)])),
    ))))];
    assert_eq!(run(body), Ok(Value::Nil));
}

#[test]
fn buffer_copies_an_overlapping_range_of_itself() {
    let b: Var = 0;
    let mut body = vec![Statement::BindVar(b), assign(b, Expr::BufferCreate(Box::new(lit(8))))];
    for i in 0..8 {
        body.push(Statement::Assign {
            place: Box::new(Expr::SeqIndex { seq: Box::new(var(b)), index: Box::new(lit(i)) }),
            value: Box::new(lit(i + 1)),
        });
    }
    body.push(Statement::BufferSetSlice {
        buffer: Box::new(var(b)),
        src: Box::new(var(b)),
        src_offset: Box::new(lit(0)),
        offset: Box::new(lit(2)),
        len: Box::new(lit(4)),
    });
    body.push(Statement::Return(var(b)));
    let mut heap = Heap::new();
    let mut vm = load(body, &mut heap);
    let result = finish(&mut vm, &mut heap).unwrap();
    let buffer = match result {
        Value::Buffer(buffer) => buffer,
        other => panic!("no buffer: {:?}", other),
    };
    assert_eq!(buffer.as_slice(&heap), &[1, 2, 1, 2, 3, 4, 7, 8]);
}

#[test]
fn arguments_arrive_in_the_order_of_the_call() {
    // f(a, b) = a - b, called as f(10, 3).
    let a: Var = 0;
    let b: Var = 1;
    let callee = Function {
        args: vec![a, b],
        body: vec![Statement::Return(binary(BinaryOpType::Sub, var(a), var(b)))],
    }
    .compile();
    let caller = Function {
        args: vec![],
        body: vec![Statement::Return(Expr::Call {
            func: Box::new(Expr::SeqIndex {
                seq: Box::new(Expr::ModuleRef),
                index: Box::new(lit(0)),
            }),
            args: vec![lit(10), lit(3)],
        })],
    }
    .compile();
    let program = Program {
        modules: vec![Module {
            items: vec![ModuleItem::Function(callee), ModuleItem::Function(caller)],
        }],
    };
    let mut heap = Heap::new();
    let root = program.into_tuple(&mut heap);
    let module = match root.get(&mut heap, 0) {
        Some(Value::Tuple(t)) => t,
        other => panic!("no module: {:?}", other),
    };
    let func = match module.get(&mut heap, 1) {
        Some(Value::Function(f)) => f,
        other => panic!("no function: {:?}", other),
    };
    let mut vm = VirtualMachine::new(func, &mut heap);
    assert_eq!(finish(&mut vm, &mut heap), Ok(Value::Integer(7)));
}

#[test]
fn module_reference_leads_to_the_other_module() {
    // Module 0 holds the literal 42. Module 1 holds a reference to module 0
    // and a function that returns the first item of what the reference
    // leads to.
    let f = Function {
        args: vec![],
        body: vec![Statement::Return(Expr::SeqIndex {
            seq: Box::new(Expr::SeqIndex {
                seq: Box::new(Expr::ModuleRef),
                index: Box::new(lit(0)),
            }),
            index: Box::new(lit(0)),
        })],
    }
    .compile();
    let program = Program {
        modules: vec![
            Module { items: vec![ModuleItem::LiteralValue(LiteralValue::Integer(42))] },
            Module { items: vec![ModuleItem::ModuleRef(0), ModuleItem::Function(f)] },
        ],
    };
    let mut heap = Heap::new();
    let root = program.into_tuple(&mut heap);
    let module = match root.get(&mut heap, 1) {
        Some(Value::Tuple(t)) => t,
        other => panic!("no module: {:?}", other),
    };
    let func = match module.get(&mut heap, 1) {
        Some(Value::Function(f)) => f,
        other => panic!("no function: {:?}", other),
    };
    let mut vm = VirtualMachine::new(func, &mut heap);
    assert_eq!(finish(&mut vm, &mut heap), Ok(Value::Integer(42)));
}

#[test]
fn module_reference_beyond_the_program_leads_to_nothing() {
    let program = Program { modules: vec![Module { items: vec![ModuleItem::ModuleRef(9)] }] };
    let mut heap = Heap::new();
    let root = program.into_tuple(&mut heap);
    let module = match root.get(&mut heap, 0) {
        Some(Value::Tuple(t)) => t,
        other => panic!("no module: {:?}", other),
    };
    assert_eq!(module.get(&mut heap, 0), Some(Value::Nil));
}

#[test]
fn real_arithmetic_is_done_by_the_host() {
    let e = binary(BinaryOpType::Add, real_lit(1.5), real_lit(2.25));
    assert_eq!(
        run(vec![Statement::Return(e)]),
        Ok(Value::Real(Real::from_bits(3.75f64.to_bits())))
    );
    let e = unary(UnaryOpType::Floor, binary(BinaryOpType::Div, real_lit(7.0), real_lit(2.0)));
    assert_eq!(
        run(vec![Statement::Return(e)]),
        Ok(Value::Real(Real::from_bits(3.0f64.to_bits())))
    );
    let e = unary(UnaryOpType::IntToReal, lit(-4));
    assert_eq!(
        run(vec![Statement::Return(e)]),
        Ok(Value::Real(Real::from_bits((-4.0f64).to_bits())))
    );
}

#[test]
fn reals_compare_by_their_numbers() {
    let less = |a: f64, b: f64| run(vec![Statement::Return(binary(BinaryOpType::Less, real_lit(a), real_lit(b)))]);
    assert_eq!(less(1.5, 2.0), Ok(Value::Integer(1)));
    assert_eq!(less(-1.5, -2.0), Ok(Value::Integer(0)));
    assert_eq!(less(-0.0, 0.0), Ok(Value::Integer(0)));
    assert_eq!(less(f64::NAN, 0.0), Err(OpError::BadType(ValueType::Real)));
}

#[test]
fn machine_stops_running_when_the_fuel_is_used_up() {
    let mut heap = Heap::new();
    let mut vm = load(
        vec![Statement::Loop(Loop { condition: None, label: None, body: vec![] })],
        &mut heap,
    );
    assert!(matches!(vm.run_until_exited(&mut heap, 1000), Ok(VmState::Running)));
    assert!(vm.is_running());
}

#[test]
fn program_goes_from_the_tree_through_bytes_to_the_machine() {
    let tree = tootvm::stage0::Program {
        modules: vec![tootvm::stage0::Module {
            items: vec![
                tootvm::stage0::ModuleItem::LiteralValue(LiteralValue::Integer(40)),
                tootvm::stage0::ModuleItem::Buffer(vec![1, 2]),
                tootvm::stage0::ModuleItem::ModuleRef(0),
                tootvm::stage0::ModuleItem::Function(Function {
                    args: vec![],
                    body: vec![Statement::Return(binary(
                        BinaryOpType::Add,
                        Expr::SeqIndex { seq: Box::new(Expr::ModuleRef), index: Box::new(lit(0)) },
                        Expr::SeqLen {
                            seq: Box::new(Expr::SeqIndex {
                                seq: Box::new(Expr::SeqIndex {
                                    seq: Box::new(Expr::ModuleRef),
                                    index: Box::new(lit(2)),
                                }),
                                index: Box::new(lit(1)),
                            }),
                        },
                    ))],
                }),
            ],
        }],
    };
    let compiled = tree.compile();
    let mut bytes = vec![0u8; 256];
    let left = match <Program as tootvm::bytecode::BytesIO>::write(&compiled, &mut bytes) {
        Some(rest) => rest.len(),
        None => panic!("the program fits"),
    };
    bytes.truncate(256 - left);
    let read = match <Program as tootvm::bytecode::BytesIO>::read(&bytes) {
        Ok((rest, program)) => {
            assert!(rest.is_empty());
            program
        }
        Err(_) => panic!("the bytes hold the program"),
    };
    assert_eq!(read, compiled);
    let mut heap = Heap::new();
    let root = read.into_tuple(&mut heap);
    let module = match root.get(&mut heap, 0) {
        Some(Value::Tuple(t)) => t,
        other => panic!("no module: {:?}", other),
    };
    let func = match module.get(&mut heap, 3) {
        Some(Value::Function(f)) => f,
        other => panic!("no function: {:?}", other),
    };
    let mut vm = VirtualMachine::new(func, &mut heap);
    // The literal 40, and the length of the buffer that the module reaches
    // through its reference to itself.
    assert_eq!(finish(&mut vm, &mut heap), Ok(Value::Integer(42)));
    assert!(heap.in_order());
}

#[test]
fn list_equals_itself_and_no_other_list() {
    let x: Var = 0;
    let y: Var = 1;
    let program = |op: BinaryOpType, other: Var| {
        run(vec![
            Statement::BindVar(x),
            assign(x, Expr::ListCreate(vec![lit(1)])),
            Statement::BindVar(y),
            assign(y, Expr::ListCreate(vec![lit(1)])),
            Statement::Return(binary(op, var(x), var(other))),
        ])
    };
    assert_eq!(program(BinaryOpType::Equal, x), Ok(Value::Integer(1)));
    assert_eq!(program(BinaryOpType::NotEqual, x), Ok(Value::Integer(0)));
    assert_eq!(program(BinaryOpType::Equal, y), Ok(Value::Integer(0)));
    assert_eq!(program(BinaryOpType::NotEqual, y), Ok(Value::Integer(1)));
    assert_eq!(program(BinaryOpType::Identity, x), Ok(Value::Integer(0)));
    assert_eq!(program(BinaryOpType::Identity, y), Ok(Value::Integer(1)));
}

fn length_of(items: Vec<Expr>) -> Expr {
    Expr::SeqLen { seq: Box::new(Expr::ListCreate(items)) }
}

#[test]
fn logic_operators_take_the_integer_that_any_expression_leaves() {
    let and = |a: Expr, b: Expr| run(vec![Statement::Return(binary(BinaryOpType::LogicAnd, a, b))]);
    let or = |a: Expr, b: Expr| run(vec![Statement::Return(binary(BinaryOpType::LogicOr, a, b))]);
    let fault = || binary(BinaryOpType::Div, lit(1), lit(0));
    assert_eq!(and(length_of(vec![]), lit(5)), Ok(Value::Integer(0)));
    assert_eq!(and(length_of(vec![]), fault()), Ok(Value::Integer(0)));
    assert_eq!(and(length_of(vec![lit(1)]), length_of(vec![lit(1), lit(2)])), Ok(Value::Integer(1)));
    assert_eq!(and(length_of(vec![lit(1)]), length_of(vec![])), Ok(Value::Integer(0)));
    assert_eq!(or(length_of(vec![]), length_of(vec![])), Ok(Value::Integer(0)));
    assert_eq!(or(length_of(vec![]), length_of(vec![lit(4)])), Ok(Value::Integer(1)));
    assert_eq!(or(length_of(vec![lit(9), lit(9)]), fault()), Ok(Value::Integer(1)));
    // Nothing and a real zero count as zero; a container never does.
    assert_eq!(and(Expr::ListCreate(vec![]), lit(1)), Ok(Value::Integer(1)));
    assert_eq!(or(lit(0), Expr::ListCreate(vec![])), Ok(Value::Integer(1)));
    assert_eq!(and(nil(), fault()), Ok(Value::Integer(0)));
    assert_eq!(or(real_lit(0.0), nil()), Ok(Value::Integer(0)));
    assert_eq!(or(real_lit(0.5), fault()), Ok(Value::Integer(1)));
    assert!(and(lit(1), fault()).is_err());
}

#[test]
fn operands_are_evaluated_first_to_last() {
    // The value that is pushed last becomes the first cell.
    let cells = || Expr::TupleCreate(vec![lit(10), lit(20), lit(30)]);
    let cell = |i: i64| {
        run(vec![Statement::Return(Expr::SeqIndex { seq: Box::new(cells()), index: Box::new(lit(i)) })])
    };
    assert_eq!(cell(0), Ok(Value::Integer(30)));
    assert_eq!(cell(1), Ok(Value::Integer(20)));
    assert_eq!(cell(2), Ok(Value::Integer(10)));
    let slice = Expr::ListGetSlice {
        list: Box::new(Expr::ListCreate(vec![lit(4), lit(3), lit(2), lit(1)])),
        a: Box::new(lit(1)),
        b: Box::new(binary(BinaryOpType::Add, lit(1), lit(2))),
    };
    let second = Expr::SeqIndex { seq: Box::new(slice), index: Box::new(lit(1)) };
    assert_eq!(run(vec![Statement::Return(second)]), Ok(Value::Integer(3)));
    let popped = Expr::ListPop(Box::new(Expr::ListCreate(vec![lit(7), lit(8)])));
    assert_eq!(run(vec![Statement::Return(popped)]), Ok(Value::Integer(7)));
}

#[test]
fn comparison_decides_on_what_any_two_expressions_leave() {
    let compare = |t: BinaryOpType, a: Expr, b: Expr| run(vec![Statement::Return(binary(t, a, b))]);
    assert_eq!(
        compare(BinaryOpType::Less, length_of(vec![lit(1)]), length_of(vec![lit(1), lit(2)])),
        Ok(Value::Integer(1))
    );
    assert_eq!(
        compare(BinaryOpType::Equal, Expr::ListCreate(vec![]), Expr::ListCreate(vec![])),
        Ok(Value::Integer(0))
    );
    assert_eq!(
        compare(BinaryOpType::NotEqual, Expr::ListCreate(vec![]), Expr::ListCreate(vec![])),
        Ok(Value::Integer(1))
    );
    assert_eq!(compare(BinaryOpType::Less, real_lit(1.5), real_lit(2.5)), Ok(Value::Integer(1)));
    assert_eq!(compare(BinaryOpType::Equal, nil(), nil()), Ok(Value::Integer(1)));
    assert_eq!(compare(BinaryOpType::Less, nil(), lit(0)), Ok(Value::Integer(1)));
    assert!(compare(BinaryOpType::Less, real_lit(f64::NAN), real_lit(1.0)).is_err());
    let not = |e: Expr| {
        run(vec![Statement::Return(Expr::UnaryOp(UnaryOp {
            op_type: UnaryOpType::LogicNot,
            expr: Box::new(e),
        }))])
    };
    assert_eq!(not(length_of(vec![])), Ok(Value::Integer(1)));
    assert_eq!(not(length_of(vec![lit(1)])), Ok(Value::Integer(0)));
    assert_eq!(not(nil()), Ok(Value::Integer(1)));
    assert_eq!(not(real_lit(0.0)), Ok(Value::Integer(1)));
    assert_eq!(not(Expr::ListCreate(vec![])), Ok(Value::Integer(0)));
}
