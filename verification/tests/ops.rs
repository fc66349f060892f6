use tootvm::bytecode::ops::seq::{seq_get, seq_set, seq_to_vec};
use tootvm::bytecode::{LiteralValue, Op, OpAction, OpError, Operation, RealRequest};
use tootvm::callframe::CallFrame;
use tootvm::callstack::CallStack;
use tootvm::datamodel::{
    Buffer, Function, Heap, List, NativeFn, Real, Table, Tuple, Value, ValueTryIntoError,
    ValueType,
};
use tootvm::{VirtualMachine, VmState};

fn num(i: i64) -> Value {
    Value::Integer(i)
}

fn float(x: f64) -> Value {
    Value::Real(Real::from_bits(x.to_bits()))
}

fn mismatch(found: ValueType, expected: ValueType) -> OpError {
    OpError::IntoType(ValueTryIntoError { found, expected })
}

/// A stack with the operands, the last of them on top.
fn stack_of(operands: &[Value]) -> CallStack {
    let mut m = CallStack::new();
    for v in operands {
        m.push(*v);
    }
    m
}

/// Executes one instruction on the operands and returns the operands that
/// are left, or the error. An instruction that has an action fails the test.
fn apply(heap: &mut Heap, op: Op, operands: &[Value]) -> Result<Vec<Value>, OpError> {
    let mut m = stack_of(operands);
    match op.exec(&mut m, heap) {
        Ok(OpAction::Next) => Ok(m.stack.clone()),
        Ok(other) => panic!("{:?} asks for {:?}", op, other),
        Err(e) => {
            assert_eq!(m.stack, operands, "{:?} failed and changed the stack", op);
            Err(e)
        }
    }
}

fn pure(op: Op, operands: &[Value]) -> Result<Vec<Value>, OpError> {
    apply(&mut Heap::new(), op, operands)
}

#[test]
fn integer_arithmetic_wraps_round() {
    assert_eq!(pure(Op::Add, &[num(2), num(3)]), Ok(vec![num(5)]));
    assert_eq!(pure(Op::Add, &[num(i64::MAX), num(1)]), Ok(vec![num(i64::MIN)]));
    assert_eq!(pure(Op::Sub, &[num(2), num(3)]), Ok(vec![num(-1)]));
    assert_eq!(pure(Op::Sub, &[num(i64::MIN), num(1)]), Ok(vec![num(i64::MAX)]));
    assert_eq!(pure(Op::Mul, &[num(-4), num(3)]), Ok(vec![num(-12)]));
    assert_eq!(pure(Op::Mul, &[num(i64::MAX), num(2)]), Ok(vec![num(-2)]));
    assert_eq!(pure(Op::Neg, &[num(5)]), Ok(vec![num(-5)]));
    assert_eq!(pure(Op::Neg, &[num(i64::MIN)]), Ok(vec![num(i64::MIN)]));
}

#[test]
fn quotient_is_cut_off_towards_zero_and_remainder_follows_the_left_side() {
    assert_eq!(pure(Op::Div, &[num(7), num(2)]), Ok(vec![num(3)]));
    assert_eq!(pure(Op::Div, &[num(-7), num(2)]), Ok(vec![num(-3)]));
    assert_eq!(pure(Op::Div, &[num(7), num(-2)]), Ok(vec![num(-3)]));
    assert_eq!(pure(Op::Div, &[num(-7), num(-2)]), Ok(vec![num(3)]));
    assert_eq!(pure(Op::Rem, &[num(7), num(2)]), Ok(vec![num(1)]));
    assert_eq!(pure(Op::Rem, &[num(-7), num(2)]), Ok(vec![num(-1)]));
    assert_eq!(pure(Op::Rem, &[num(7), num(-2)]), Ok(vec![num(1)]));
    assert_eq!(pure(Op::Rem, &[num(-7), num(-2)]), Ok(vec![num(-1)]));
}

#[test]
fn division_that_has_no_result_is_an_error() {
    let bad = Err(OpError::BadType(ValueType::Integer));
    assert_eq!(pure(Op::Div, &[num(1), num(0)]), bad);
    assert_eq!(pure(Op::Rem, &[num(1), num(0)]), bad);
    assert_eq!(pure(Op::Div, &[num(i64::MIN), num(-1)]), bad);
    assert_eq!(pure(Op::Rem, &[num(i64::MIN), num(-1)]), bad);
}

#[test]
fn arithmetic_goes_by_the_kind_of_its_left_side() {
    assert_eq!(
        pure(Op::Add, &[num(1), float(1.0)]),
        Err(mismatch(ValueType::Real, ValueType::Integer))
    );
    assert_eq!(
        pure(Op::Add, &[float(1.0), num(1)]),
        Err(mismatch(ValueType::Integer, ValueType::Real))
    );
    assert_eq!(pure(Op::Add, &[Value::Nil, num(1)]), Err(OpError::BadType(ValueType::Nil)));
    assert_eq!(pure(Op::Neg, &[Value::Nil]), Err(OpError::BadType(ValueType::Nil)));
    assert_eq!(pure(Op::Add, &[num(1)]), Err(OpError::StackEmpty));
    assert_eq!(pure(Op::Add, &[]), Err(OpError::StackEmpty));
    assert_eq!(pure(Op::Neg, &[]), Err(OpError::StackEmpty));
}

#[test]
fn real_arithmetic_is_left_to_the_host() {
    let a = Real::from_bits(1.5f64.to_bits());
    let b = Real::from_bits(2.0f64.to_bits());
    let ask = |op: Op, operands: &[Value]| {
        let mut m = stack_of(operands);
        match op.exec(&mut m, &mut Heap::new()) {
            Ok(OpAction::Real(request)) => {
                assert!(m.stack.is_empty());
                request
            }
            other => panic!("{:?} gives {:?}", op, other),
        }
    };
    let both = [Value::Real(a), Value::Real(b)];
    assert_eq!(ask(Op::Add, &both), RealRequest::Add(a, b));
    assert_eq!(ask(Op::Sub, &both), RealRequest::Sub(a, b));
    assert_eq!(ask(Op::Mul, &both), RealRequest::Mul(a, b));
    assert_eq!(ask(Op::Div, &both), RealRequest::Div(a, b));
    assert_eq!(ask(Op::Rem, &both), RealRequest::Rem(a, b));
    assert_eq!(ask(Op::Floor, &[Value::Real(a)]), RealRequest::Floor(a));
    assert_eq!(ask(Op::Ceil, &[Value::Real(a)]), RealRequest::Ceil(a));
    assert_eq!(ask(Op::Trunc, &[Value::Real(a)]), RealRequest::Trunc(a));
    assert_eq!(ask(Op::Round, &[Value::Real(a)]), RealRequest::Round(a));
    assert_eq!(ask(Op::IntToReal, &[num(7)]), RealRequest::FromInteger(7));
    assert_eq!(pure(Op::Floor, &[num(1)]), Err(mismatch(ValueType::Integer, ValueType::Real)));
    assert_eq!(pure(Op::IntToReal, &[float(1.0)]), Err(mismatch(ValueType::Real, ValueType::Integer)));
    assert_eq!(pure(Op::Neg, &[float(1.5)]), Ok(vec![float(-1.5)]));
    assert_eq!(pure(Op::Neg, &[float(-0.0)]), Ok(vec![float(0.0)]));
}

#[test]
fn bit_instructions_work_on_integers() {
    assert_eq!(pure(Op::And, &[num(0b1100), num(0b1010)]), Ok(vec![num(0b1000)]));
    assert_eq!(pure(Op::Or, &[num(0b1100), num(0b1010)]), Ok(vec![num(0b1110)]));
    assert_eq!(pure(Op::Xor, &[num(0b1100), num(0b1010)]), Ok(vec![num(0b0110)]));
    assert_eq!(pure(Op::Not, &[num(0)]), Ok(vec![num(-1)]));
    assert_eq!(pure(Op::Shl, &[num(3), num(4)]), Ok(vec![num(48)]));
    assert_eq!(pure(Op::Shl, &[num(1), num(63)]), Ok(vec![num(i64::MIN)]));
    assert_eq!(pure(Op::Shl, &[num(3), num(64)]), Ok(vec![num(3)]));
    assert_eq!(pure(Op::Shl, &[num(3), num(65)]), Ok(vec![num(6)]));
    assert_eq!(pure(Op::Shr, &[num(-16), num(2)]), Ok(vec![num(-4)]));
    assert_eq!(pure(Op::Shr, &[num(16), num(-62)]), Ok(vec![num(4)]));
    assert_eq!(
        pure(Op::And, &[num(1), Value::Nil]),
        Err(mismatch(ValueType::Nil, ValueType::Integer))
    );
    assert_eq!(
        pure(Op::And, &[float(1.0), num(1)]),
        Err(mismatch(ValueType::Real, ValueType::Integer))
    );
    assert_eq!(pure(Op::And, &[num(1)]), Err(OpError::StackEmpty));
    assert_eq!(pure(Op::Not, &[Value::Nil]), Err(mismatch(ValueType::Nil, ValueType::Integer)));
}

#[test]
fn numbers_compare_by_their_order() {
    assert_eq!(pure(Op::Cmp, &[num(1), num(2)]), Ok(vec![num(-1)]));
    assert_eq!(pure(Op::Cmp, &[num(2), num(2)]), Ok(vec![num(0)]));
    assert_eq!(pure(Op::Cmp, &[num(3), num(2)]), Ok(vec![num(1)]));
    assert_eq!(pure(Op::Cmp, &[float(1.0), float(2.0)]), Ok(vec![num(-1)]));
    assert_eq!(pure(Op::Cmp, &[float(2.0), float(2.0)]), Ok(vec![num(0)]));
    assert_eq!(pure(Op::Cmp, &[float(3.0), float(2.0)]), Ok(vec![num(1)]));
    assert_eq!(
        pure(Op::Cmp, &[float(f64::NAN), float(2.0)]),
        Err(OpError::BadType(ValueType::Real))
    );
    assert_eq!(pure(Op::Cmp, &[num(1), float(2.0)]), Err(mismatch(ValueType::Real, ValueType::Integer)));
    assert_eq!(pure(Op::Cmp, &[float(2.0), num(1)]), Err(mismatch(ValueType::Integer, ValueType::Real)));
    assert_eq!(pure(Op::Cmp, &[num(1)]), Err(OpError::StackEmpty));
}

#[test]
fn nothing_is_below_everything_but_itself() {
    assert_eq!(pure(Op::Cmp, &[Value::Nil, Value::Nil]), Ok(vec![num(0)]));
    assert_eq!(pure(Op::Cmp, &[Value::Nil, num(-5)]), Ok(vec![num(-1)]));
    assert_eq!(
        pure(Op::Cmp, &[Value::Nil, Value::NativeFn(NativeFn { id: 1 })]),
        Ok(vec![num(-1)])
    );
}

#[test]
fn containers_compare_by_identity() {
    let mut heap = Heap::new();
    let a = List::new(&mut heap, vec![num(1)]);
    let b = List::new(&mut heap, vec![num(1)]);
    let t = Tuple::new(&mut heap, vec![]);
    let u = Tuple::new(&mut heap, vec![]);
    for v in [Value::List(a), Value::List(b), Value::Tuple(t), Value::Tuple(u)] {
        for _ in 0..8 {
            heap.retain(&v);
        }
    }
    // The same container: 0, as for equal numbers. Two containers: 1, even
    // where they hold the same.
    assert_eq!(apply(&mut heap, Op::Cmp, &[Value::List(a), Value::List(a)]), Ok(vec![num(0)]));
    assert_eq!(apply(&mut heap, Op::Cmp, &[Value::List(a), Value::List(b)]), Ok(vec![num(1)]));
    assert_eq!(apply(&mut heap, Op::Cmp, &[Value::Tuple(t), Value::Tuple(t)]), Ok(vec![num(0)]));
    assert_eq!(apply(&mut heap, Op::Cmp, &[Value::Tuple(t), Value::Tuple(u)]), Ok(vec![num(1)]));
    assert_eq!(
        apply(&mut heap, Op::Cmp, &[Value::Tuple(t), Value::TupleWeak(t.downgrade())]),
        Ok(vec![num(0)])
    );
    assert_eq!(
        apply(&mut heap, Op::Cmp, &[Value::TupleWeak(u.downgrade()), Value::Tuple(t)]),
        Ok(vec![num(1)])
    );
    assert_eq!(
        apply(&mut heap, Op::Cmp, &[Value::Tuple(t), Value::List(a)]),
        Err(mismatch(ValueType::List, ValueType::Tuple))
    );
    assert_eq!(
        apply(&mut heap, Op::Cmp, &[Value::List(a), Value::Tuple(t)]),
        Err(mismatch(ValueType::Tuple, ValueType::List))
    );
    let f = NativeFn { id: 1 };
    let g = NativeFn { id: 2 };
    assert_eq!(pure(Op::Cmp, &[Value::NativeFn(f), Value::NativeFn(f)]), Ok(vec![num(0)]));
    assert_eq!(pure(Op::Cmp, &[Value::NativeFn(f), Value::NativeFn(g)]), Ok(vec![num(1)]));
    assert_eq!(
        pure(Op::Cmp, &[Value::NativeFn(f), num(1)]),
        Err(mismatch(ValueType::Integer, ValueType::NativeFn))
    );
}

#[test]
fn every_kind_of_container_equals_itself_and_no_other() {
    let mut heap = Heap::new();
    let module = Tuple::empty(&mut heap, 0);
    let pairs = [
        (Value::Table(Table::new(&mut heap, vec![])), Value::Table(Table::new(&mut heap, vec![]))),
        (Value::List(List::empty(&mut heap)), Value::List(List::empty(&mut heap))),
        (Value::Buffer(Buffer::empty(&mut heap)), Value::Buffer(Buffer::empty(&mut heap))),
        (
            Value::Function(Function::new(&mut heap, module, vec![])),
            Value::Function(Function::new(&mut heap, module, vec![])),
        ),
        (
            Value::Unknown(tootvm::datamodel::Unknown::new(&mut heap)),
            Value::Unknown(tootvm::datamodel::Unknown::new(&mut heap)),
        ),
        (
            Value::Tuple(Tuple::empty(&mut heap, 0)),
            Value::Tuple(Tuple::empty(&mut heap, 0)),
        ),
    ];
    for (x, y) in pairs {
        for _ in 0..4 {
            heap.retain(&x);
            heap.retain(&y);
        }
        assert_eq!(apply(&mut heap, Op::Cmp, &[x, x]), Ok(vec![num(0)]), "{:?}", x);
        assert_eq!(apply(&mut heap, Op::Cmp, &[x, y]), Ok(vec![num(1)]), "{:?}", x);
        assert_eq!(apply(&mut heap, Op::Cmp, &[y, x]), Ok(vec![num(1)]), "{:?}", x);
    }
}

#[test]
fn comparison_gives_up_the_handles_that_it_takes() {
    let mut heap = Heap::new();
    let a = List::new(&mut heap, vec![]);
    heap.retain(&Value::List(a));
    assert_eq!(apply(&mut heap, Op::Cmp, &[Value::List(a), Value::List(a)]), Ok(vec![num(0)]));
    assert_eq!(heap.strong_count(a.id), 0);
}

#[test]
fn get_type_gives_the_number_of_the_kind() {
    assert_eq!(pure(Op::GetType, &[Value::Nil]), Ok(vec![num(0)]));
    assert_eq!(pure(Op::GetType, &[num(9)]), Ok(vec![num(1)]));
    assert_eq!(pure(Op::GetType, &[float(9.0)]), Ok(vec![num(2)]));
    assert_eq!(pure(Op::GetType, &[Value::NativeFn(NativeFn { id: 0 })]), Ok(vec![num(9)]));
    assert_eq!(pure(Op::GetType, &[]), Err(OpError::StackEmpty));
    let mut heap = Heap::new();
    let b = Buffer::empty(&mut heap);
    assert_eq!(apply(&mut heap, Op::GetType, &[Value::Buffer(b)]), Ok(vec![num(7)]));
    assert!(!heap.is_live(b.id));
}

fn action(op: Op, operands: &[Value]) -> (OpAction, Vec<Value>) {
    let mut m = stack_of(operands);
    let a = op.exec(&mut m, &mut Heap::new()).unwrap();
    (a, m.stack.clone())
}

#[test]
fn jumps_test_the_value_on_top_of_the_stack() {
    assert!(matches!(action(Op::Jump(5), &[num(1)]), (OpAction::Jump(5), s) if s == vec![num(1)]));
    let jumps = |op: Op, v: Value| match action(op, &[num(9), v]) {
        (OpAction::Jump(7), s) => {
            assert_eq!(s, vec![num(9)]);
            true
        }
        (OpAction::Next, s) => {
            assert_eq!(s, vec![num(9)]);
            false
        }
        other => panic!("{:?}", other),
    };
    assert!(jumps(Op::JumpZero(7), Value::Nil));
    assert!(jumps(Op::JumpZero(7), num(0)));
    assert!(jumps(Op::JumpZero(7), float(0.0)));
    assert!(jumps(Op::JumpZero(7), float(-0.0)));
    assert!(!jumps(Op::JumpZero(7), num(1)));
    assert!(!jumps(Op::JumpZero(7), float(f64::NAN)));
    assert!(!jumps(Op::JumpZero(7), Value::NativeFn(NativeFn { id: 0 })));
    assert!(jumps(Op::JumpNeg(7), num(-1)));
    assert!(jumps(Op::JumpNeg(7), float(-0.5)));
    assert!(!jumps(Op::JumpNeg(7), num(0)));
    assert!(!jumps(Op::JumpNeg(7), float(-0.0)));
    assert!(!jumps(Op::JumpNeg(7), float(f64::NAN)));
    assert!(!jumps(Op::JumpNeg(7), Value::Nil));
    assert_eq!(pure(Op::JumpZero(1), &[]), Err(OpError::StackEmpty));
    assert_eq!(pure(Op::JumpNeg(1), &[]), Err(OpError::StackEmpty));
}

#[test]
fn call_takes_the_last_argument_first() {
    let f = Function { id: 3 };
    match action(Op::Call(2), &[num(0), Value::Function(f), num(1), num(2)]) {
        (OpAction::Call(g, args), rest) => {
            assert_eq!(g, f);
            assert_eq!(args, vec![num(2), num(1)]);
            assert_eq!(rest, vec![num(0)]);
        }
        other => panic!("{:?}", other),
    }
    let n = NativeFn { id: 4 };
    match action(Op::Call(0), &[Value::NativeFn(n)]) {
        (OpAction::CallNative(g, args), rest) => {
            assert_eq!(g, n);
            assert!(args.is_empty() && rest.is_empty());
        }
        other => panic!("{:?}", other),
    }
    assert_eq!(pure(Op::Call(1), &[num(5), num(1)]), Err(OpError::BadType(ValueType::Integer)));
    assert_eq!(pure(Op::Call(2), &[num(5), num(1)]), Err(OpError::StackEmpty));
    assert!(matches!(action(Op::Return, &[num(1), num(2)]), (OpAction::Return(Value::Integer(2)), _)));
    assert_eq!(pure(Op::Return, &[]), Err(OpError::StackEmpty));
}

#[test]
fn stack_instructions_move_values_between_the_stack_and_the_slots() {
    let mut heap = Heap::new();
    let mut m = CallStack::new();
    assert!(matches!(Op::LiteralCreate(LiteralValue::Integer(4)).exec(&mut m, &mut heap), Ok(_)));
    assert!(matches!(Op::LiteralCreate(LiteralValue::Nil).exec(&mut m, &mut heap), Ok(_)));
    assert!(matches!(Op::StackPop.exec(&mut m, &mut heap), Ok(_)));
    assert!(matches!(Op::StackCopy.exec(&mut m, &mut heap), Ok(_)));
    assert_eq!(m.stack, vec![num(4), num(4)]);
    assert_eq!(Op::StackLoad(0).exec(&mut m, &mut heap).unwrap_err(), OpError::LocalRead(0));
    assert!(matches!(Op::StackStore(2).exec(&mut m, &mut heap), Ok(_)));
    assert_eq!(m.locals, vec![Value::Nil, Value::Nil, num(4)]);
    assert!(matches!(Op::StackLoad(1).exec(&mut m, &mut heap), Ok(_)));
    assert!(matches!(Op::StackLoad(2).exec(&mut m, &mut heap), Ok(_)));
    assert_eq!(m.stack, vec![num(4), Value::Nil, num(4)]);
    assert_eq!(Op::StackLoad(3).exec(&mut m, &mut heap).unwrap_err(), OpError::LocalRead(3));
    m.push(num(8));
    assert!(matches!(Op::StackSwap(2).exec(&mut m, &mut heap), Ok(_)));
    assert_eq!(m.stack, vec![num(4), Value::Nil, num(4), num(4)]);
    assert_eq!(m.locals, vec![Value::Nil, Value::Nil, num(8)]);
    assert!(matches!(Op::StackSwap(4).exec(&mut m, &mut heap), Ok(_)));
    assert_eq!(m.stack, vec![num(4), Value::Nil, num(4), Value::Nil]);
    assert_eq!(m.locals, vec![Value::Nil, Value::Nil, num(8), Value::Nil, num(4)]);
    let mut empty = CallStack::new();
    assert_eq!(Op::StackPop.exec(&mut empty, &mut heap).unwrap_err(), OpError::StackEmpty);
    assert_eq!(Op::StackCopy.exec(&mut empty, &mut heap).unwrap_err(), OpError::StackEmpty);
    assert_eq!(Op::StackStore(0).exec(&mut empty, &mut heap).unwrap_err(), OpError::StackEmpty);
    assert_eq!(Op::StackSwap(0).exec(&mut empty, &mut heap).unwrap_err(), OpError::StackEmpty);
    assert!(empty.locals.is_empty());
}

#[test]
fn callstack_stores_and_loads() {
    let mut m = CallStack::new();
    assert_eq!(m.pop(), Err(OpError::StackEmpty));
    assert_eq!(m.peek(0), Err(OpError::StackEmpty));
    assert_eq!(m.store(1, num(5)), Value::Nil);
    assert_eq!(m.store(1, num(6)), num(5));
    assert_eq!(m.load(1), Ok(&num(6)));
    assert_eq!(m.load(0), Ok(&Value::Nil));
    assert_eq!(m.load(2), Err(OpError::LocalRead(2)));
    let mut v = num(7);
    m.swap(0, &mut v);
    assert_eq!(v, Value::Nil);
    assert_eq!(m.load(0), Ok(&num(7)));
    m.push(num(1));
    m.push(num(2));
    m.push(num(3));
    assert_eq!(m.depth(), 3);
    assert_eq!(m.peek(0), Ok(num(3)));
    assert_eq!(m.peek(2), Ok(num(1)));
    assert_eq!(m.take(2), vec![num(3), num(2)]);
    assert_eq!(m.pop(), Ok(num(1)));
}

#[test]
fn copy_and_pop_count_the_handles() {
    let mut heap = Heap::new();
    let l = List::new(&mut heap, vec![]);
    let mut m = stack_of(&[Value::List(l)]);
    Op::StackCopy.exec(&mut m, &mut heap).unwrap();
    assert_eq!(heap.strong_count(l.id), 2);
    Op::StackStore(1).exec(&mut m, &mut heap).unwrap();
    Op::StackLoad(1).exec(&mut m, &mut heap).unwrap();
    assert_eq!(heap.strong_count(l.id), 3);
    Op::StackPop.exec(&mut m, &mut heap).unwrap();
    Op::StackPop.exec(&mut m, &mut heap).unwrap();
    assert_eq!(heap.strong_count(l.id), 1);
    m.push(num(0));
    Op::StackStore(1).exec(&mut m, &mut heap).unwrap();
    assert!(!heap.is_live(l.id));
}

#[test]
fn tuple_and_list_take_the_top_of_the_stack_as_their_first_item() {
    let mut heap = Heap::new();
    let out = apply(&mut heap, Op::TupleCreate(2), &[num(9), num(1), num(2)]).unwrap();
    let t = match out[..] {
        [Value::Integer(9), Value::Tuple(t)] => t,
        _ => panic!("{:?}", out),
    };
    assert_eq!(t.cells(&heap), &[num(2), num(1)]);
    let out = apply(&mut heap, Op::ListCreate(3), &[num(1), num(2), num(3)]).unwrap();
    let l = match out[..] {
        [Value::List(l)] => l,
        _ => panic!("{:?}", out),
    };
    assert_eq!(l.as_slice(&heap), &[num(3), num(2), num(1)]);
    assert_eq!(apply(&mut heap, Op::TupleCreate(2), &[num(1)]), Err(OpError::StackEmpty));
    assert_eq!(apply(&mut heap, Op::ListCreate(1), &[]), Err(OpError::StackEmpty));
    let out = apply(&mut heap, Op::TupleCreate(0), &[]).unwrap();
    assert!(matches!(out[..], [Value::Tuple(_)]));
}

#[test]
fn tuple_from_list_keeps_the_order_of_the_items() {
    let mut heap = Heap::new();
    let l = List::new(&mut heap, vec![num(1), num(2)]);
    heap.retain(&Value::List(l));
    let out = apply(&mut heap, Op::TupleFromList, &[Value::List(l)]).unwrap();
    let t = out[0].try_tuple().unwrap();
    assert_eq!(t.cells(&heap), &[num(1), num(2)]);
    assert_eq!(heap.strong_count(l.id), 1);
    assert_eq!(
        apply(&mut heap, Op::TupleFromList, &[num(1)]),
        Err(mismatch(ValueType::Integer, ValueType::List))
    );
}

#[test]
fn weak_instructions_follow_the_count_of_strong_handles() {
    let mut heap = Heap::new();
    let t = Tuple::new(&mut heap, vec![]);
    heap.retain(&Value::Tuple(t));
    let out = apply(&mut heap, Op::TupleWeakRef, &[Value::Tuple(t)]).unwrap();
    assert_eq!(out, vec![Value::TupleWeak(t.downgrade())]);
    assert_eq!(heap.strong_count(t.id), 1);
    let out = apply(&mut heap, Op::TupleWeakUpgrade, &out).unwrap();
    assert_eq!(out, vec![Value::Tuple(t)]);
    assert_eq!(heap.strong_count(t.id), 2);
    heap.release(Value::Tuple(t));
    heap.release(Value::Tuple(t));
    let out = apply(&mut heap, Op::TupleWeakUpgrade, &[Value::TupleWeak(t.downgrade())]).unwrap();
    assert_eq!(out, vec![Value::Nil]);
    assert_eq!(
        apply(&mut heap, Op::TupleWeakRef, &[num(1)]),
        Err(mismatch(ValueType::Integer, ValueType::Tuple))
    );
    assert_eq!(
        apply(&mut heap, Op::TupleWeakUpgrade, &[Value::Tuple(t)]),
        Err(mismatch(ValueType::Tuple, ValueType::TupleWeak))
    );
}

fn pair(heap: &mut Heap, k: Value, v: Value) -> Value {
    Value::Tuple(Tuple::new(heap, vec![k, v]))
}

#[test]
fn table_is_made_of_a_list_of_pairs() {
    let mut heap = Heap::new();
    let pairs = vec![
        pair(&mut heap, num(1), num(10)),
        pair(&mut heap, num(3), num(30)),
        pair(&mut heap, num(2), num(20)),
        pair(&mut heap, num(-1), num(99)),
    ];
    let l = List::new(&mut heap, pairs);
    let out = apply(&mut heap, Op::TableCreate, &[Value::List(l)]).unwrap();
    let t = out[0].try_table().unwrap();
    assert_eq!(
        t.pairs(&heap),
        vec![(1, num(10)), (2, num(20)), (3, num(30)), (u64::MAX, num(99))]
    );
    assert!(!heap.is_live(l.id));
}

#[test]
fn table_is_not_made_of_anything_else() {
    let mut heap = Heap::new();
    let good = pair(&mut heap, num(1), num(10));
    let no_key = pair(&mut heap, Value::Nil, num(10));
    let short = Value::Tuple(Tuple::new(&mut heap, vec![num(1)]));
    let none = Value::Tuple(Tuple::new(&mut heap, vec![]));
    let mut make = |items: Vec<Value>| {
        let l = List::new(&mut heap, items);
        let before = heap.strong_count(l.id);
        let r = apply(&mut heap, Op::TableCreate, &[Value::List(l)]);
        assert_eq!(heap.strong_count(l.id), before);
        r
    };
    assert_eq!(make(vec![good, num(5)]), Err(mismatch(ValueType::Integer, ValueType::Tuple)));
    assert_eq!(make(vec![good, no_key]), Err(mismatch(ValueType::Nil, ValueType::Integer)));
    assert_eq!(make(vec![short, no_key]), Err(OpError::IndexRead(1)));
    assert_eq!(make(vec![none]), Err(OpError::IndexRead(0)));
    assert_eq!(pure(Op::TableCreate, &[num(1)]), Err(mismatch(ValueType::Integer, ValueType::List)));
    assert_eq!(pure(Op::TableCreate, &[]), Err(OpError::StackEmpty));
}

#[test]
fn list_instructions_push_pop_and_slice() {
    let mut heap = Heap::new();
    let l = List::new(&mut heap, vec![num(1), num(2), num(3)]);
    for _ in 0..8 {
        heap.retain(&Value::List(l));
    }
    assert_eq!(apply(&mut heap, Op::ListPush, &[Value::List(l), num(4)]), Ok(vec![]));
    assert_eq!(l.as_slice(&heap), &[num(1), num(2), num(3), num(4)]);
    assert_eq!(apply(&mut heap, Op::ListPop, &[Value::List(l)]), Ok(vec![num(4)]));
    let out = apply(&mut heap, Op::ListGetSlice, &[Value::List(l), num(1), num(3)]).unwrap();
    assert_eq!(out[0].try_list().unwrap().as_slice(&heap), &[num(2), num(3)]);
    assert_eq!(
        apply(&mut heap, Op::ListGetSlice, &[Value::List(l), num(1), num(4)]),
        Err(OpError::IndexRead(4))
    );
    assert_eq!(
        apply(&mut heap, Op::ListGetSlice, &[Value::List(l), num(-1), num(2)]),
        Err(OpError::IndexRead(2))
    );
    assert_eq!(
        apply(&mut heap, Op::ListGetSlice, &[Value::List(l), num(2), num(1)]),
        Err(OpError::IndexRead(1))
    );
    assert_eq!(
        apply(&mut heap, Op::ListGetSlice, &[Value::List(l), Value::Nil, num(1)]),
        Err(mismatch(ValueType::Nil, ValueType::Integer))
    );
    assert_eq!(
        apply(&mut heap, Op::ListPush, &[num(1), num(4)]),
        Err(mismatch(ValueType::Integer, ValueType::List))
    );
    assert_eq!(apply(&mut heap, Op::ListPush, &[num(4)]), Err(OpError::StackEmpty));
    let e = List::empty(&mut heap);
    assert_eq!(apply(&mut heap, Op::ListPop, &[Value::List(e)]), Err(OpError::IndexRead(0)));
    assert_eq!(heap.strong_count(e.id), 1);
}

#[test]
fn buffer_instructions_create_slice_and_copy() {
    let mut heap = Heap::new();
    let out = apply(&mut heap, Op::BufferCreate, &[num(3)]).unwrap();
    let b = out[0].try_buffer().unwrap();
    assert_eq!(b.as_slice(&heap), &[0, 0, 0]);
    assert_eq!(
        apply(&mut heap, Op::BufferCreate, &[num(-1)]),
        Err(OpError::BadType(ValueType::Integer))
    );
    assert_eq!(
        apply(&mut heap, Op::BufferCreate, &[Value::Nil]),
        Err(mismatch(ValueType::Nil, ValueType::Integer))
    );
    let src = Buffer::new(&mut heap, vec![1, 2, 3, 4, 5, 6, 7, 8]);
    for _ in 0..8 {
        heap.retain(&Value::Buffer(src));
        heap.retain(&Value::Buffer(b));
    }
    let out = apply(&mut heap, Op::BufferGetSlice, &[Value::Buffer(src), num(2), num(4)]).unwrap();
    assert_eq!(out[0].try_buffer().unwrap().as_slice(&heap), &[3, 4]);
    assert_eq!(
        apply(&mut heap, Op::BufferGetSlice, &[Value::Buffer(src), num(2), num(9)]),
        Err(OpError::IndexRead(9))
    );
    let copy = |heap: &mut Heap, src_offset: i64, offset: i64, len: i64| {
        apply(
            heap,
            Op::BufferSetSlice,
            &[Value::Buffer(src), Value::Buffer(src), num(src_offset), num(offset), num(len)],
        )
    };
    assert_eq!(copy(&mut heap, 0, 2, 4), Ok(vec![]));
    assert_eq!(src.as_slice(&heap), &[1, 2, 1, 2, 3, 4, 7, 8]);
    assert_eq!(copy(&mut heap, 0, 5, 4), Err(OpError::IndexWrite(4)));
    assert_eq!(copy(&mut heap, 6, 0, 3), Err(OpError::IndexWrite(3)));
    assert_eq!(copy(&mut heap, 0, 0, -1), Err(OpError::IndexWrite(-1)));
    assert_eq!(copy(&mut heap, -1, 0, 1), Err(OpError::IndexWrite(1)));
    assert_eq!(
        apply(
            &mut heap,
            Op::BufferSetSlice,
            &[Value::Buffer(b), num(0), num(0), num(0), num(0)]
        ),
        Err(mismatch(ValueType::Integer, ValueType::Buffer))
    );
    assert_eq!(
        apply(&mut heap, Op::BufferSetSlice, &[Value::Buffer(src), num(0), num(0), num(0)]),
        Err(OpError::StackEmpty)
    );
}

#[test]
fn sequence_instructions_work_on_every_kind_of_sequence() {
    let mut heap = Heap::new();
    let t = Tuple::new(&mut heap, vec![num(1), num(2)]);
    let l = List::new(&mut heap, vec![num(3), num(4), num(5)]);
    let b = Buffer::new(&mut heap, vec![6]);
    let table = Table::new(&mut heap, vec![(7, num(70))]);
    for v in [Value::Tuple(t), Value::List(l), Value::Buffer(b), Value::Table(table)] {
        for _ in 0..32 {
            heap.retain(&v);
        }
    }
    assert_eq!(apply(&mut heap, Op::SeqLen, &[Value::Tuple(t)]), Ok(vec![num(2)]));
    assert_eq!(apply(&mut heap, Op::SeqLen, &[Value::List(l)]), Ok(vec![num(3)]));
    assert_eq!(apply(&mut heap, Op::SeqLen, &[Value::Buffer(b)]), Ok(vec![num(1)]));
    assert_eq!(
        apply(&mut heap, Op::SeqLen, &[Value::Table(table)]),
        Err(OpError::BadType(ValueType::Table))
    );
    assert_eq!(apply(&mut heap, Op::SeqLen, &[num(1)]), Err(OpError::BadType(ValueType::Integer)));

    assert_eq!(apply(&mut heap, Op::SeqGet, &[Value::Tuple(t), num(1)]), Ok(vec![num(2)]));
    assert_eq!(apply(&mut heap, Op::SeqGet, &[Value::List(l), num(0)]), Ok(vec![num(3)]));
    assert_eq!(apply(&mut heap, Op::SeqGet, &[Value::Buffer(b), num(0)]), Ok(vec![num(6)]));
    assert_eq!(apply(&mut heap, Op::SeqGet, &[Value::Table(table), num(7)]), Ok(vec![num(70)]));
    assert_eq!(apply(&mut heap, Op::SeqGet, &[Value::Table(table), num(8)]), Ok(vec![Value::Nil]));
    assert_eq!(
        apply(&mut heap, Op::SeqGet, &[Value::Tuple(t), num(2)]),
        Err(OpError::IndexRead(2))
    );
    assert_eq!(
        apply(&mut heap, Op::SeqGet, &[Value::List(l), num(-1)]),
        Err(OpError::IndexRead(-1))
    );
    assert_eq!(
        apply(&mut heap, Op::SeqGet, &[Value::Buffer(b), num(1)]),
        Err(OpError::IndexRead(1))
    );
    assert_eq!(
        apply(&mut heap, Op::SeqGet, &[Value::Nil, num(1)]),
        Err(OpError::BadType(ValueType::Nil))
    );
    assert_eq!(
        apply(&mut heap, Op::SeqGet, &[Value::List(l), Value::Nil]),
        Err(mismatch(ValueType::Nil, ValueType::Integer))
    );

    assert_eq!(apply(&mut heap, Op::SeqSet, &[Value::Tuple(t), num(0), num(10)]), Ok(vec![]));
    assert_eq!(apply(&mut heap, Op::SeqSet, &[Value::List(l), num(2), num(50)]), Ok(vec![]));
    assert_eq!(apply(&mut heap, Op::SeqSet, &[Value::Buffer(b), num(0), num(0x1ff)]), Ok(vec![]));
    assert_eq!(apply(&mut heap, Op::SeqSet, &[Value::Table(table), num(8), num(80)]), Ok(vec![]));
    assert_eq!(t.cells(&heap), &[num(10), num(2)]);
    assert_eq!(l.as_slice(&heap), &[num(3), num(4), num(50)]);
    assert_eq!(b.as_slice(&heap), &[0xff]);
    assert_eq!(table.pairs(&heap), vec![(7, num(70)), (8, num(80))]);
    assert_eq!(
        apply(&mut heap, Op::SeqSet, &[Value::Tuple(t), num(2), num(10)]),
        Err(OpError::IndexWrite(2))
    );
    assert_eq!(
        apply(&mut heap, Op::SeqSet, &[Value::Buffer(b), num(0), Value::Nil]),
        Err(mismatch(ValueType::Nil, ValueType::Integer))
    );
    assert_eq!(
        apply(&mut heap, Op::SeqSet, &[Value::Buffer(b), num(5), num(1)]),
        Err(OpError::IndexWrite(5))
    );
    assert_eq!(
        apply(&mut heap, Op::SeqSet, &[num(0), num(5), num(1)]),
        Err(OpError::BadType(ValueType::Integer))
    );

    assert_eq!(apply(&mut heap, Op::SeqResize, &[Value::List(l), num(1)]), Ok(vec![]));
    assert_eq!(apply(&mut heap, Op::SeqResize, &[Value::Buffer(b), num(3)]), Ok(vec![]));
    assert_eq!(l.as_slice(&heap), &[num(3)]);
    assert_eq!(b.as_slice(&heap), &[0xff, 0, 0]);
    assert_eq!(
        apply(&mut heap, Op::SeqResize, &[Value::Tuple(t), num(1)]),
        Err(OpError::BadType(ValueType::Tuple))
    );
    assert_eq!(
        apply(&mut heap, Op::SeqResize, &[Value::List(l), num(-1)]),
        Err(OpError::BadType(ValueType::Integer))
    );
}

#[test]
fn every_sequence_can_be_listed() {
    let mut heap = Heap::new();
    let t = Tuple::new(&mut heap, vec![num(1), num(2)]);
    let b = Buffer::new(&mut heap, vec![6, 7]);
    let table = Table::new(&mut heap, vec![(7, num(70))]);
    let listed = |heap: &mut Heap, v: Value| {
        let out = apply(heap, Op::SeqToList, &[v]).unwrap();
        out[0].try_list().unwrap().as_slice(heap).to_vec()
    };
    assert_eq!(listed(&mut heap, Value::Tuple(t)), vec![num(1), num(2)]);
    assert_eq!(listed(&mut heap, Value::Buffer(b)), vec![num(6), num(7)]);
    let pairs = listed(&mut heap, Value::Table(table));
    assert_eq!(pairs.len(), 1);
    assert_eq!(pairs[0].try_tuple().unwrap().cells(&heap), &[num(7), num(70)]);
    assert_eq!(pure(Op::SeqToList, &[num(1)]), Err(OpError::BadType(ValueType::Integer)));
}

#[test]
fn sequences_are_appended_to_lists_and_buffers() {
    let mut heap = Heap::new();
    let l = List::new(&mut heap, vec![num(1)]);
    let t = Tuple::new(&mut heap, vec![num(2), num(0x103)]);
    let b = Buffer::new(&mut heap, vec![9]);
    let table = Table::new(&mut heap, vec![(7, num(70))]);
    let nothing = Table::new(&mut heap, vec![]);
    for v in [
        Value::Tuple(t),
        Value::List(l),
        Value::Buffer(b),
        Value::Table(table),
        Value::Table(nothing),
    ] {
        for _ in 0..32 {
            heap.retain(&v);
        }
    }
    assert_eq!(apply(&mut heap, Op::SeqAppend, &[Value::List(l), Value::Tuple(t)]), Ok(vec![]));
    assert_eq!(apply(&mut heap, Op::SeqAppend, &[Value::List(l), Value::Buffer(b)]), Ok(vec![]));
    assert_eq!(l.as_slice(&heap), &[num(1), num(2), num(0x103), num(9)]);
    assert_eq!(apply(&mut heap, Op::SeqAppend, &[Value::List(l), Value::List(l)]), Ok(vec![]));
    assert_eq!(l.len(&heap), 8);
    assert_eq!(apply(&mut heap, Op::SeqAppend, &[Value::Buffer(b), Value::Tuple(t)]), Ok(vec![]));
    assert_eq!(b.as_slice(&heap), &[9, 2, 3]);
    assert_eq!(apply(&mut heap, Op::SeqAppend, &[Value::Buffer(b), Value::Buffer(b)]), Ok(vec![]));
    assert_eq!(b.as_slice(&heap), &[9, 2, 3, 9, 2, 3]);
    assert_eq!(
        apply(&mut heap, Op::SeqAppend, &[Value::Buffer(b), Value::Table(nothing)]),
        Ok(vec![])
    );
    assert_eq!(
        apply(&mut heap, Op::SeqAppend, &[Value::Buffer(b), Value::Table(table)]),
        Err(mismatch(ValueType::Tuple, ValueType::Integer))
    );
    let mixed = List::new(&mut heap, vec![num(1), Value::Nil]);
    assert_eq!(
        apply(&mut heap, Op::SeqAppend, &[Value::Buffer(b), Value::List(mixed)]),
        Err(mismatch(ValueType::Nil, ValueType::Integer))
    );
    assert_eq!(b.len(&heap), 6);
    assert_eq!(
        apply(&mut heap, Op::SeqAppend, &[Value::Tuple(t), Value::List(l)]),
        Err(OpError::BadType(ValueType::Tuple))
    );
    assert_eq!(
        apply(&mut heap, Op::SeqAppend, &[Value::List(l), num(1)]),
        Err(OpError::BadType(ValueType::Integer))
    );
    assert_eq!(apply(&mut heap, Op::SeqAppend, &[Value::List(l)]), Err(OpError::StackEmpty));
}

#[test]
fn sequence_helpers_copy_what_they_read() {
    let mut heap = Heap::new();
    let inner = List::empty(&mut heap);
    let t = Tuple::new(&mut heap, vec![Value::List(inner)]);
    assert_eq!(seq_get(&mut heap, &Value::Tuple(t), 0), Ok(Value::List(inner)));
    assert_eq!(heap.strong_count(inner.id), 2);
    assert_eq!(seq_to_vec(&mut heap, &Value::Tuple(t)), Ok(vec![Value::List(inner)]));
    assert_eq!(heap.strong_count(inner.id), 3);
    let other = List::empty(&mut heap);
    assert_eq!(
        seq_set(&mut heap, &Value::Tuple(t), 0, &Value::List(other)),
        Ok(Value::List(inner))
    );
    assert_eq!(heap.strong_count(other.id), 2);
    assert_eq!(seq_get(&mut heap, &num(1), 0), Err(OpError::BadType(ValueType::Integer)));
}

#[test]
fn frame_starts_with_its_module_in_slot_zero() {
    let mut heap = Heap::new();
    let module = Tuple::empty(&mut heap, 0);
    let f = Function::new(&mut heap, module, vec![Op::StackLoad(0), Op::Return]);
    let mut frame = CallFrame::new(f, &mut heap);
    assert_eq!(frame.stack.locals, vec![Value::Tuple(module)]);
    assert_eq!(heap.strong_count(module.id), 2);
    assert!(matches!(frame.exec(&mut heap), Ok(OpAction::Next)));
    assert_eq!(frame.cursor, 1);
    assert!(matches!(frame.exec(&mut heap), Ok(OpAction::Return(Value::Tuple(_)))));
    assert!(matches!(frame.exec(&mut heap), Ok(OpAction::Return(Value::Nil))));
    assert_eq!(frame.cursor, 2);
}

#[test]
fn frame_keeps_its_place_when_an_instruction_fails() {
    let mut heap = Heap::new();
    let module = Tuple::empty(&mut heap, 0);
    let f = Function::new(&mut heap, module, vec![Op::Add]);
    let mut frame = CallFrame::new(f, &mut heap);
    frame.push(num(1));
    assert_eq!(frame.exec(&mut heap).unwrap_err(), OpError::StackEmpty);
    assert_eq!(frame.cursor, 0);
    assert_eq!(frame.stack.stack, vec![num(1)]);
}

#[test]
fn jump_counts_from_the_jump_itself() {
    let mut heap = Heap::new();
    let module = Tuple::empty(&mut heap, 0);
    let f = Function::new(&mut heap, module, vec![]);
    let mut frame = CallFrame::new(f, &mut heap);
    frame.cursor = 11;
    frame.jump(5);
    assert_eq!(frame.cursor, 15);
    frame.jump(-2);
    assert_eq!(frame.cursor, 12);
    frame.jump(0);
    assert_eq!(frame.cursor, 11);
    frame.jump(-20);
    assert_eq!(frame.cursor, usize::MAX);
}

#[test]
fn machine_waits_for_the_host_to_call_its_routine() {
    let mut heap = Heap::new();
    let module = Tuple::empty(&mut heap, 0);
    let ops = vec![
        Op::LiteralCreate(LiteralValue::Integer(20)),
        Op::LiteralCreate(LiteralValue::Integer(22)),
        Op::Call(2),
        Op::Return,
    ];
    let f = Function::new(&mut heap, module, ops);
    let mut vm = VirtualMachine::new(f, &mut heap);
    vm.push(Value::NativeFn(NativeFn { id: 4 }));
    match vm.run_until_exited(&mut heap, 100).unwrap() {
        VmState::CallNative(routine, args) => {
            assert_eq!(routine, NativeFn { id: 4 });
            assert_eq!(args, vec![num(22), num(20)]);
        }
        other => panic!("{:?}", other),
    }
    assert!(vm.is_running());
    vm.push(num(42));
    assert!(matches!(
        vm.run_until_exited(&mut heap, 100),
        Ok(VmState::Exited(Value::Integer(42)))
    ));
    assert!(!vm.is_running());
}

#[test]
fn machine_steps_and_processes_one_instruction_at_a_time() {
    let mut heap = Heap::new();
    let module = Tuple::empty(&mut heap, 0);
    let ops = vec![Op::Jump(2), Op::Add, Op::LiteralCreate(LiteralValue::Integer(1)), Op::Return];
    let f = Function::new(&mut heap, module, ops);
    let mut vm = VirtualMachine::new(f, &mut heap);
    let action = vm.step(&mut heap).unwrap();
    assert!(matches!(action, OpAction::Jump(2)));
    assert!(matches!(vm.process(&mut heap, action), Ok(VmState::Running)));
    assert!(matches!(vm.run_until_exited(&mut heap, 1), Ok(VmState::Running)));
    assert!(matches!(
        vm.run_until_exited(&mut heap, 1),
        Ok(VmState::Exited(Value::Integer(1)))
    ));
    assert!(!heap.is_live(f.id));
    assert!(!heap.is_live(module.id));
}

#[test]
fn returning_frame_gives_up_what_it_held() {
    let mut heap = Heap::new();
    let module = Tuple::empty(&mut heap, 0);
    let ops = vec![
        Op::LiteralCreate(LiteralValue::Integer(1)),
        Op::ListCreate(1),
        Op::StackStore(3),
        Op::ListCreate(0),
        Op::ListCreate(0),
        Op::Return,
    ];
    let f = Function::new(&mut heap, module, ops);
    heap.retain(&Value::Function(f));
    let mut vm = VirtualMachine::new(f, &mut heap);
    let returned = match vm.run_until_exited(&mut heap, 100).unwrap() {
        VmState::Exited(Value::List(l)) => l,
        other => panic!("{:?}", other),
    };
    // Three lists were made: one is stored in a slot, one is left on the
    // stack, one is returned.
    let lists: Vec<usize> = (0..10).filter(|&id| List { id }.is_valid(&heap)).collect();
    assert_eq!(lists, vec![returned.id]);
    assert!(heap.is_live(f.id));
    assert_eq!(heap.strong_count(module.id), 1);
}

#[test]
fn instruction_knows_its_name_and_whether_it_jumps() {
    assert_eq!(Op::Add.get_type().get_name(), "Add");
    assert_eq!(Op::JumpZero(4).get_type().get_name(), "JumpZero");
    assert_eq!(Op::SeqAppend.get_type().get_name(), "SeqAppend");
    assert!(Op::Jump(0).test_jump() && Op::JumpZero(0).test_jump() && Op::JumpNeg(0).test_jump());
    assert!(!Op::Return.test_jump() && !Op::Call(0).test_jump());
    assert_eq!(Op::JumpNeg(0).set_dest(9), Op::JumpNeg(9));
    assert_eq!(Op::Cmp.set_dest(9), Op::Cmp);
}

#[test]
fn literal_and_error_are_made_from_what_they_hold() {
    assert_eq!(LiteralValue::from_integer(5), LiteralValue::Integer(5));
    assert_eq!(LiteralValue::from_integer(5).into_val(), num(5));
    assert_eq!(LiteralValue::Nil.into_val(), Value::Nil);
    let e = ValueTryIntoError { found: ValueType::Nil, expected: ValueType::List };
    assert_eq!(OpError::from_mismatch(e), OpError::IntoType(e));
}
