use vstd::prelude::*;
use crate::bytecode::op::{agrees, need_list, need_tuple, need_tuple_weak, Effect, OpAction, OpError};
use crate::callstack::{CallStack, CallStackView};
use crate::datamodel::{Heap, HeapView, List, ObjectView, Tuple, Value, ValueType};

verus! {

/// The items of a list; none where the handle leads to no list.
pub open spec fn items_of(heap: HeapView, list: List) -> Seq<Value> {
    match heap.list(list) {
        Some(items) => items,
        None => Seq::empty(),
    }
}

/// `TupleCreate` takes `items` values off the stack and makes a tuple of
/// them: the value on top of the stack becomes the first cell.
pub open spec fn effect_tuple_create(items: u8, m: CallStackView, heap: HeapView) -> Effect {
    if m.stack.len() < items {
        Effect::fail(OpError::StackEmpty, m, heap)
    } else {
        Effect::next(
            m.popped(items as int).pushed(Value::Tuple(Tuple { id: heap.slots.len() as usize })),
            heap.allocated(ObjectView::Tuple(m.taken(items as int))),
        )
    }
}

/// `TupleFromList` takes a list off the stack and makes a tuple of copies of
/// its items, in their order. The handle to the list is given up.
pub open spec fn effect_tuple_from_list(m: CallStackView, heap: HeapView) -> Effect {
    if m.stack.len() < 1 {
        Effect::fail(OpError::StackEmpty, m, heap)
    } else {
        match m.top(0) {
            Value::List(list) => {
                let items = items_of(heap, list);
                Effect::next(
                    m.popped(1).pushed(Value::Tuple(Tuple { id: heap.slots.len() as usize })),
                    heap.retained_all(items).allocated(ObjectView::Tuple(items)).released(
                        Value::List(list),
                    ),
                )
            },
            v => Effect::fail(OpError::IntoType(v.mismatch(ValueType::List)), m, heap),
        }
    }
}

/// `TupleWeakRef` replaces a handle to a tuple by a weak one. The strong
/// handle is given up: if it was the last, the tuple is gone at once.
pub open spec fn effect_tuple_weak_ref(m: CallStackView, heap: HeapView) -> Effect {
    if m.stack.len() < 1 {
        Effect::fail(OpError::StackEmpty, m, heap)
    } else {
        match m.top(0) {
            Value::Tuple(t) => Effect::next(
                m.popped(1).pushed(Value::TupleWeak(t.downgraded())),
                heap.released(Value::Tuple(t)),
            ),
            v => Effect::fail(OpError::IntoType(v.mismatch(ValueType::Tuple)), m, heap),
        }
    }
}

/// `TupleWeakUpgrade` replaces a weak handle by a strong one, which is
/// counted, if the tuple still lives, and by nothing if it does not.
pub open spec fn effect_tuple_weak_upgrade(m: CallStackView, heap: HeapView) -> Effect {
    if m.stack.len() < 1 {
        Effect::fail(OpError::StackEmpty, m, heap)
    } else {
        match m.top(0) {
            Value::TupleWeak(w) => if heap.tuple(Tuple { id: w.id }) is Some {
                Effect::next(
                    m.popped(1).pushed(Value::Tuple(Tuple { id: w.id })),
                    heap.retained_id(w.id),
                )
            } else {
                Effect::next(m.popped(1).pushed(Value::Nil), heap)
            },
            v => Effect::fail(OpError::IntoType(v.mismatch(ValueType::TupleWeak)), m, heap),
        }
    }
}

impl Tuple {
    /// The weak handle to the same tuple.
    pub open spec fn downgraded(self) -> crate::datamodel::TupleWeak {
        crate::datamodel::TupleWeak { id: self.id }
    }
}

pub fn exec_tuple_create(items: u8, m: &mut CallStack, heap: &mut Heap) -> (r: Result<
    OpAction,
    OpError,
>)
    requires
        old(heap).wf(),
    ensures
        agrees(effect_tuple_create(items, old(m)@, old(heap)@), r, final(m)@, final(heap)@),
        final(heap).wf(),
{
    let count = items as usize;
    if m.depth() < count {
        return Err(OpError::StackEmpty);
    }
    let acc = m.take(count);
    let t = Tuple::new(heap, acc);
    m.push(Value::Tuple(t));
    Ok(OpAction::Next)
}

pub fn exec_tuple_from_list(m: &mut CallStack, heap: &mut Heap) -> (r: Result<OpAction, OpError>)
    requires
        old(heap).wf(),
    ensures
        agrees(effect_tuple_from_list(old(m)@, old(heap)@), r, final(m)@, final(heap)@),
        final(heap).wf(),
{
    let list = need_list(m.peek(0)?)?;
    m.take(1);
    let items = crate::datamodel::tuple::copy_values(list.as_slice(heap));
    let tuple = Tuple::from_iter(heap, items.as_slice());
    heap.release(Value::List(list));
    m.push(Value::Tuple(tuple));
    Ok(OpAction::Next)
}

pub fn exec_tuple_weak_ref(m: &mut CallStack, heap: &mut Heap) -> (r: Result<OpAction, OpError>)
    requires
        old(heap).wf(),
    ensures
        agrees(effect_tuple_weak_ref(old(m)@, old(heap)@), r, final(m)@, final(heap)@),
        final(heap).wf(),
{
    let tuple = need_tuple(m.peek(0)?)?;
    m.take(1);
    let weak = tuple.downgrade();
    heap.release(Value::Tuple(tuple));
    m.push(Value::TupleWeak(weak));
    Ok(OpAction::Next)
}

pub fn exec_tuple_weak_upgrade(m: &mut CallStack, heap: &mut Heap) -> (r: Result<OpAction, OpError>)
    requires
        old(heap).wf(),
    ensures
        agrees(effect_tuple_weak_upgrade(old(m)@, old(heap)@), r, final(m)@, final(heap)@),
        final(heap).wf(),
{
    let weak = need_tuple_weak(m.peek(0)?)?;
    m.take(1);
    let tuple = weak.upgrade(heap);
    let val = match tuple {
        Some(t) => Value::Tuple(t),
        None => Value::Nil,
    };
    m.push(val);
    Ok(OpAction::Next)
}

} // verus!
