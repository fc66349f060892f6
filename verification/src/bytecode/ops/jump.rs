use vstd::prelude::*;
use crate::bytecode::op::{agrees, ActionView, Effect, OpAction, OpError};
use crate::callstack::{CallStack, CallStackView};
use crate::datamodel::{Heap, HeapView, Value};

verus! {

/// Whether `JumpZero` jumps on the value: on nothing, on the integer 0 and on
/// a real zero.
pub open spec fn is_zero(v: Value) -> bool {
    match v {
        Value::Nil => true,
        Value::Integer(i) => i == 0,
        Value::Real(r) => r.is_zero(),
        _ => false,
    }
}

/// Whether `JumpNeg` jumps on the value: on an integer or a real below zero.
pub open spec fn is_negative(v: Value) -> bool {
    match v {
        Value::Integer(i) => i < 0,
        Value::Real(r) => r.is_negative(),
        _ => false,
    }
}

pub fn test_zero(v: &Value) -> (r: bool)
    ensures
        r == is_zero(*v),
{
    match v {
        Value::Nil => true,
        Value::Integer(i) => *i == 0,
        Value::Real(r) => r.test_zero(),
        _ => false,
    }
}

pub fn test_negative(v: &Value) -> (r: bool)
    ensures
        r == is_negative(*v),
{
    match v {
        Value::Integer(i) => *i < 0,
        Value::Real(r) => r.test_negative(),
        _ => false,
    }
}

/// `Jump` jumps.
pub open spec fn effect_jump(dest: i32, m: CallStackView, heap: HeapView) -> Effect {
    Effect::act(ActionView::Jump(dest), m, heap)
}

/// `JumpZero` and `JumpNeg` take a value off the stack, give up its handle,
/// and jump if it passes their test.
pub open spec fn effect_jump_if(
    on_zero: bool,
    dest: i32,
    m: CallStackView,
    heap: HeapView,
) -> Effect {
    if m.stack.len() < 1 {
        Effect::fail(OpError::StackEmpty, m, heap)
    } else {
        let v = m.top(0);
        let hit = if on_zero {
            is_zero(v)
        } else {
            is_negative(v)
        };
        Effect::act(
            if hit {
                ActionView::Jump(dest)
            } else {
                ActionView::Next
            },
            m.popped(1),
            heap.released(v),
        )
    }
}

pub fn exec_jump(dest: i32, m: &mut CallStack) -> (r: Result<OpAction, OpError>)
    ensures
        forall|heap: HeapView| agrees(effect_jump(dest, old(m)@, heap), r, final(m)@, heap),
{
    Ok(OpAction::Jump(dest))
}

pub fn exec_jump_if(on_zero: bool, dest: i32, m: &mut CallStack, heap: &mut Heap) -> (r: Result<
    OpAction,
    OpError,
>)
    requires
        old(heap).wf(),
    ensures
        agrees(effect_jump_if(on_zero, dest, old(m)@, old(heap)@), r, final(m)@, final(heap)@),
        final(heap).wf(),
{
    let v = m.pop()?;
    let hit = if on_zero {
        test_zero(&v)
    } else {
        test_negative(&v)
    };
    heap.release(v);
    if hit {
        Ok(OpAction::Jump(dest))
    } else {
        Ok(OpAction::Next)
    }
}

} // verus!
