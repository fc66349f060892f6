use vstd::prelude::*;
use crate::bytecode::literal::LiteralValue;
use crate::bytecode::op::{agrees, ActionView, Effect, OpAction, OpError};
use crate::callstack::{CallStack, CallStackView};
use crate::datamodel::{Heap, HeapView, Value};

verus! {

/// `LiteralCreate` puts the value of the literal on the stack.
pub open spec fn effect_literal(val: LiteralValue, m: CallStackView, heap: HeapView) -> Effect {
    Effect::next(m.pushed(val.value()), heap)
}

/// `StackCopy` puts a copy of the top operand on the stack.
pub open spec fn effect_copy(m: CallStackView, heap: HeapView) -> Effect {
    if m.stack.len() < 1 {
        Effect::fail(OpError::StackEmpty, m, heap)
    } else {
        Effect::next(m.pushed(m.top(0)), heap.retained(m.top(0)))
    }
}

/// `StackPop` takes the top operand off the stack and gives up its handle.
pub open spec fn effect_pop(m: CallStackView, heap: HeapView) -> Effect {
    if m.stack.len() < 1 {
        Effect::fail(OpError::StackEmpty, m, heap)
    } else {
        Effect::next(m.popped(1), heap.released(m.top(0)))
    }
}

/// `StackLoad` puts a copy of a local slot on the stack. A slot that was
/// never stored to cannot be loaded.
pub open spec fn effect_load(local: u8, m: CallStackView, heap: HeapView) -> Effect {
    if local >= m.locals.len() {
        Effect::fail(OpError::LocalRead(local), m, heap)
    } else {
        Effect::next(m.pushed(m.locals[local as int]), heap.retained(m.locals[local as int]))
    }
}

/// `StackStore` moves the top operand into a local slot. The handle that the
/// slot held is given up.
pub open spec fn effect_store(local: u8, m: CallStackView, heap: HeapView) -> Effect {
    if m.stack.len() < 1 {
        Effect::fail(OpError::StackEmpty, m, heap)
    } else {
        Effect::next(m.popped(1).stored(local, m.top(0)), heap.released(m.local(local)))
    }
}

/// `StackSwap` exchanges the top operand with a local slot.
pub open spec fn effect_swap(local: u8, m: CallStackView, heap: HeapView) -> Effect {
    if m.stack.len() < 1 {
        Effect::fail(OpError::StackEmpty, m, heap)
    } else {
        Effect::next(m.popped(1).stored(local, m.top(0)).pushed(m.local(local)), heap)
    }
}

/// `Return` takes the top operand off the stack and returns it.
pub open spec fn effect_return(m: CallStackView, heap: HeapView) -> Effect {
    if m.stack.len() < 1 {
        Effect::fail(OpError::StackEmpty, m, heap)
    } else {
        Effect::act(ActionView::Return(m.top(0)), m.popped(1), heap)
    }
}

/// `Call` takes its arguments off the stack, the last argument first, then
/// the value to call, which is a function or a routine of the host.
pub open spec fn effect_call(args: u8, m: CallStackView, heap: HeapView) -> Effect {
    if m.stack.len() < args + 1 {
        Effect::fail(OpError::StackEmpty, m, heap)
    } else {
        match m.top(args as int) {
            Value::Function(f) => Effect::act(
                ActionView::Call(f, m.taken(args as int)),
                m.popped(args + 1),
                heap,
            ),
            Value::NativeFn(f) => Effect::act(
                ActionView::CallNative(f, m.taken(args as int)),
                m.popped(args + 1),
                heap,
            ),
            target => Effect::fail(OpError::BadType(target.kind()), m, heap),
        }
    }
}

pub fn exec_literal(val: LiteralValue, m: &mut CallStack) -> (r: Result<OpAction, OpError>)
    ensures
        forall|heap: HeapView| agrees(effect_literal(val, old(m)@, heap), r, final(m)@, heap),
{
    m.push(val.into_val());
    Ok(OpAction::Next)
}

pub fn exec_copy(m: &mut CallStack, heap: &mut Heap) -> (r: Result<OpAction, OpError>)
    requires
        old(heap).wf(),
    ensures
        agrees(effect_copy(old(m)@, old(heap)@), r, final(m)@, final(heap)@),
        final(heap).wf(),
{
    let val = m.peek(0)?;
    heap.retain(&val);
    m.push(val);
    Ok(OpAction::Next)
}

pub fn exec_pop(m: &mut CallStack, heap: &mut Heap) -> (r: Result<OpAction, OpError>)
    requires
        old(heap).wf(),
    ensures
        agrees(effect_pop(old(m)@, old(heap)@), r, final(m)@, final(heap)@),
        final(heap).wf(),
{
    let val = m.pop()?;
    heap.release(val);
    Ok(OpAction::Next)
}

pub fn exec_load(local: u8, m: &mut CallStack, heap: &mut Heap) -> (r: Result<OpAction, OpError>)
    requires
        old(heap).wf(),
    ensures
        agrees(effect_load(local, old(m)@, old(heap)@), r, final(m)@, final(heap)@),
        final(heap).wf(),
{
    let val = *m.load(local)?;
    heap.retain(&val);
    m.push(val);
    Ok(OpAction::Next)
}

pub fn exec_store(local: u8, m: &mut CallStack, heap: &mut Heap) -> (r: Result<OpAction, OpError>)
    requires
        old(heap).wf(),
    ensures
        agrees(effect_store(local, old(m)@, old(heap)@), r, final(m)@, final(heap)@),
        final(heap).wf(),
{
    let val = m.pop()?;
    let previous = m.store(local, val);
    heap.release(previous);
    Ok(OpAction::Next)
}

pub fn exec_swap(local: u8, m: &mut CallStack) -> (r: Result<OpAction, OpError>)
    ensures
        forall|heap: HeapView| agrees(effect_swap(local, old(m)@, heap), r, final(m)@, heap),
{
    let mut val = m.pop()?;
    m.swap(local, &mut val);
    m.push(val);
    Ok(OpAction::Next)
}

pub fn exec_return(m: &mut CallStack) -> (r: Result<OpAction, OpError>)
    ensures
        forall|heap: HeapView| agrees(effect_return(old(m)@, heap), r, final(m)@, heap),
{
    let output = m.pop()?;
    Ok(OpAction::Return(output))
}

pub fn exec_call(args: u8, m: &mut CallStack) -> (r: Result<OpAction, OpError>)
    ensures
        forall|heap: HeapView| agrees(effect_call(args, old(m)@, heap), r, final(m)@, heap),
{
    let count = args as usize;
    let target = m.peek(count)?;
    match target {
        Value::Function(t) => {
            let taken = m.take(count);
            m.take(1);
            assert(m@.stack =~= old(m)@.popped(args + 1).stack);
            Ok(OpAction::Call(t, taken))
        },
        Value::NativeFn(t) => {
            let taken = m.take(count);
            m.take(1);
            assert(m@.stack =~= old(m)@.popped(args + 1).stack);
            Ok(OpAction::CallNative(t, taken))
        },
        _ => Err(OpError::BadType(target.get_type())),
    }
}

} // verus!
