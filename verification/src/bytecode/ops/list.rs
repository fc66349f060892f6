use vstd::prelude::*;
use crate::bytecode::op::{agrees, need_integer, need_list, Effect, OpAction, OpError};
use crate::callstack::{CallStack, CallStackView};
use crate::datamodel::{Heap, HeapView, List, ObjectView, Value, ValueType};

verus! {

/// The integer as a place in a sequence, if it can be one.
pub open spec fn place(i: i64) -> Option<usize> {
    if 0 <= i <= usize::MAX {
        Some(i as usize)
    } else {
        None
    }
}

pub fn to_place(i: i64) -> (r: Option<usize>)
    ensures
        r == place(i),
{
    if i < 0 {
        None
    } else if i as u64 > usize::MAX as u64 {
        None
    } else {
        Some(i as usize)
    }
}

/// `ListCreate` takes `items` values off the stack and makes a list of them:
/// the value on top of the stack becomes the first item.
pub open spec fn effect_list_create(items: u8, m: CallStackView, heap: HeapView) -> Effect {
    if m.stack.len() < items {
        Effect::fail(OpError::StackEmpty, m, heap)
    } else {
        Effect::next(
            m.popped(items as int).pushed(Value::List(List { id: heap.slots.len() as usize })),
            heap.allocated(ObjectView::List(m.taken(items as int))),
        )
    }
}

/// `ListPush` takes a value and then a list off the stack and appends the
/// value to the list. The handle to the list is given up.
pub open spec fn effect_list_push(m: CallStackView, heap: HeapView) -> Effect {
    if m.stack.len() < 2 {
        Effect::fail(OpError::StackEmpty, m, heap)
    } else {
        match m.top(1) {
            Value::List(list) => Effect::next(
                m.popped(2),
                (match heap.list(list) {
                    Some(items) => heap.with_object(
                        list.id,
                        ObjectView::List(items.push(m.top(0))),
                    ),
                    None => heap,
                }).released(Value::List(list)),
            ),
            v => Effect::fail(OpError::IntoType(v.mismatch(ValueType::List)), m, heap),
        }
    }
}

/// `ListPop` takes a list off the stack, takes the last item off the list and
/// puts it on the stack. The handle to the list is given up. A list without
/// items is an error.
pub open spec fn effect_list_pop(m: CallStackView, heap: HeapView) -> Effect {
    if m.stack.len() < 1 {
        Effect::fail(OpError::StackEmpty, m, heap)
    } else {
        match m.top(0) {
            Value::List(list) => match heap.list(list) {
                Some(items) if items.len() > 0 => Effect::next(
                    m.popped(1).pushed(items.last()),
                    heap.with_object(list.id, ObjectView::List(items.drop_last())).released(
                        Value::List(list),
                    ),
                ),
                _ => Effect::fail(OpError::IndexRead(0), m, heap),
            },
            v => Effect::fail(OpError::IntoType(v.mismatch(ValueType::List)), m, heap),
        }
    }
}

/// `ListGetSlice` takes `b`, then `a`, then a list off the stack and puts a
/// new list on it with copies of the items from `a` up to, not including,
/// `b`. The handle to the list is given up.
pub open spec fn effect_list_get_slice(m: CallStackView, heap: HeapView) -> Effect {
    if m.stack.len() < 1 {
        Effect::fail(OpError::StackEmpty, m, heap)
    } else {
        match m.top(0) {
            Value::Integer(b) => if m.stack.len() < 2 {
                Effect::fail(OpError::StackEmpty, m, heap)
            } else {
                match m.top(1) {
                    Value::Integer(a) => if m.stack.len() < 3 {
                        Effect::fail(OpError::StackEmpty, m, heap)
                    } else {
                        match m.top(2) {
                            Value::List(list) => match heap.list(list) {
                                Some(items) if 0 <= a <= b <= items.len() => {
                                    let part = items.subrange(a as int, b as int);
                                    Effect::next(
                                        m.popped(3).pushed(
                                            Value::List(List { id: heap.slots.len() as usize }),
                                        ),
                                        heap.retained_all(part).allocated(
                                            ObjectView::List(part),
                                        ).released(Value::List(list)),
                                    )
                                },
                                _ => Effect::fail(OpError::IndexRead(b), m, heap),
                            },
                            v => Effect::fail(
                                OpError::IntoType(v.mismatch(ValueType::List)),
                                m,
                                heap,
                            ),
                        }
                    },
                    v => Effect::fail(OpError::IntoType(v.mismatch(ValueType::Integer)), m, heap),
                }
            },
            v => Effect::fail(OpError::IntoType(v.mismatch(ValueType::Integer)), m, heap),
        }
    }
}

pub fn exec_list_create(items: u8, m: &mut CallStack, heap: &mut Heap) -> (r: Result<
    OpAction,
    OpError,
>)
    requires
        old(heap).wf(),
    ensures
        agrees(effect_list_create(items, old(m)@, old(heap)@), r, final(m)@, final(heap)@),
        final(heap).wf(),
{
    let count = items as usize;
    if m.depth() < count {
        return Err(OpError::StackEmpty);
    }
    let acc = m.take(count);
    let list = List::new(heap, acc);
    m.push(Value::List(list));
    Ok(OpAction::Next)
}

pub fn exec_list_push(m: &mut CallStack, heap: &mut Heap) -> (r: Result<OpAction, OpError>)
    requires
        old(heap).wf(),
    ensures
        agrees(effect_list_push(old(m)@, old(heap)@), r, final(m)@, final(heap)@),
        final(heap).wf(),
{
    let val = m.peek(0)?;
    let list = need_list(m.peek(1)?)?;
    m.take(2);
    list.push(heap, val);
    heap.release(Value::List(list));
    Ok(OpAction::Next)
}

pub fn exec_list_pop(m: &mut CallStack, heap: &mut Heap) -> (r: Result<OpAction, OpError>)
    requires
        old(heap).wf(),
    ensures
        agrees(effect_list_pop(old(m)@, old(heap)@), r, final(m)@, final(heap)@),
        final(heap).wf(),
{
    let list = need_list(m.peek(0)?)?;
    let val = match list.pop(heap) {
        Some(val) => val,
        None => {
            return Err(OpError::IndexRead(0));
        },
    };
    m.take(1);
    heap.release(Value::List(list));
    m.push(val);
    Ok(OpAction::Next)
}

pub fn exec_list_get_slice(m: &mut CallStack, heap: &mut Heap) -> (r: Result<OpAction, OpError>)
    requires
        old(heap).wf(),
    ensures
        agrees(effect_list_get_slice(old(m)@, old(heap)@), r, final(m)@, final(heap)@),
        final(heap).wf(),
{
    let b = need_integer(m.peek(0)?)?;
    let a = need_integer(m.peek(1)?)?;
    let list = need_list(m.peek(2)?)?;
    proof {
        heap.lemma_lengths();
    }
    let slice = match (to_place(a), to_place(b)) {
        (Some(from), Some(to)) => list.get_slice(heap, from, to),
        _ => None,
    };
    match slice {
        Some(slice) => {
            m.take(3);
            heap.release(Value::List(list));
            m.push(Value::List(slice));
            Ok(OpAction::Next)
        },
        None => Err(OpError::IndexRead(b)),
    }
}

} // verus!
