use vstd::prelude::*;
use crate::bytecode::op::{agrees, need_buffer, need_integer, Effect, OpAction, OpError};
use crate::bytecode::ops::list::to_place;
use crate::callstack::{CallStack, CallStackView};
use crate::datamodel::buffer::{overwritten, zeros};
use crate::datamodel::{Buffer, Heap, HeapView, ObjectView, Value, ValueType};

verus! {

/// `BufferCreate` takes a length off the stack and puts a new buffer of so
/// many zero bytes on it. A length below zero is an error.
pub open spec fn effect_buffer_create(m: CallStackView, heap: HeapView) -> Effect {
    if m.stack.len() < 1 {
        Effect::fail(OpError::StackEmpty, m, heap)
    } else {
        match m.top(0) {
            Value::Integer(len) => if 0 <= len <= usize::MAX {
                Effect::next(
                    m.popped(1).pushed(Value::Buffer(Buffer { id: heap.slots.len() as usize })),
                    heap.allocated(ObjectView::Buffer(zeros(len as nat))),
                )
            } else {
                Effect::fail(OpError::BadType(ValueType::Integer), m, heap)
            },
            v => Effect::fail(OpError::IntoType(v.mismatch(ValueType::Integer)), m, heap),
        }
    }
}

/// `BufferGetSlice` takes `b`, then `a`, then a buffer off the stack and
/// puts a new buffer on it with the bytes from `a` up to, not including,
/// `b`. The handle to the buffer is given up.
pub open spec fn effect_buffer_get_slice(m: CallStackView, heap: HeapView) -> Effect {
    if m.stack.len() < 1 {
        Effect::fail(OpError::StackEmpty, m, heap)
    } else {
        match m.top(0) {
            Value::Integer(b) => if m.stack.len() < 2 {
                Effect::fail(OpError::StackEmpty, m, heap)
            } else {
                match m.top(1) {
                    Value::Integer(a) => if m.stack.len() < 3 {
                        Effect::fail(OpError::StackEmpty, m, heap)
                    } else {
                        match m.top(2) {
                            Value::Buffer(buffer) => match heap.buffer(buffer) {
                                Some(items) if 0 <= a <= b <= items.len() => Effect::next(
                                    m.popped(3).pushed(
                                        Value::Buffer(Buffer { id: heap.slots.len() as usize }),
                                    ),
                                    heap.allocated(
                                        ObjectView::Buffer(items.subrange(a as int, b as int)),
                                    ).released(Value::Buffer(buffer)),
                                ),
                                _ => Effect::fail(OpError::IndexRead(b), m, heap),
                            },
                            v => Effect::fail(
                                OpError::IntoType(v.mismatch(ValueType::Buffer)),
                                m,
                                heap,
                            ),
                        }
                    },
                    v => Effect::fail(OpError::IntoType(v.mismatch(ValueType::Integer)), m, heap),
                }
            },
            v => Effect::fail(OpError::IntoType(v.mismatch(ValueType::Integer)), m, heap),
        }
    }
}

/// The operands of `BufferSetSlice` as they lie on the stack, the topmost
/// first: the length, the offset, the offset in the source, the source and
/// the buffer.
pub struct SetSlice {
    pub len: i64,
    pub offset: i64,
    pub src_offset: i64,
    pub src: Buffer,
    pub buffer: Buffer,
}

/// The operands of `BufferSetSlice`, or the first error among them.
pub open spec fn set_slice_operands(m: CallStackView) -> Result<SetSlice, OpError> {
    if m.stack.len() < 1 {
        Err(OpError::StackEmpty)
    } else if !(m.top(0) is Integer) {
        Err(OpError::IntoType(m.top(0).mismatch(ValueType::Integer)))
    } else if m.stack.len() < 2 {
        Err(OpError::StackEmpty)
    } else if !(m.top(1) is Integer) {
        Err(OpError::IntoType(m.top(1).mismatch(ValueType::Integer)))
    } else if m.stack.len() < 3 {
        Err(OpError::StackEmpty)
    } else if !(m.top(2) is Integer) {
        Err(OpError::IntoType(m.top(2).mismatch(ValueType::Integer)))
    } else if m.stack.len() < 4 {
        Err(OpError::StackEmpty)
    } else if !(m.top(3) is Buffer) {
        Err(OpError::IntoType(m.top(3).mismatch(ValueType::Buffer)))
    } else if m.stack.len() < 5 {
        Err(OpError::StackEmpty)
    } else if !(m.top(4) is Buffer) {
        Err(OpError::IntoType(m.top(4).mismatch(ValueType::Buffer)))
    } else {
        Ok(
            SetSlice {
                len: m.top(0)->Integer_0,
                offset: m.top(1)->Integer_0,
                src_offset: m.top(2)->Integer_0,
                src: m.top(3)->Buffer_0,
                buffer: m.top(4)->Buffer_0,
            },
        )
    }
}

/// `BufferSetSlice` takes the length, the offset, the offset in the source,
/// the source and the buffer off the stack and copies so many bytes of the
/// source over the bytes of the buffer. The bytes are read before any is
/// written, so the source may be the buffer itself. Both handles are given
/// up. Ranges that do not lie within their buffers are an error.
pub open spec fn effect_buffer_set_slice(m: CallStackView, heap: HeapView) -> Effect {
    match set_slice_operands(m) {
        Err(e) => Effect::fail(e, m, heap),
        Ok(o) => match (heap.buffer(o.buffer), heap.buffer(o.src)) {
            (Some(dst), Some(from)) if 0 <= o.len && 0 <= o.offset && 0 <= o.src_offset
                && o.src_offset + o.len <= from.len() && o.offset + o.len <= dst.len() => {
                Effect::next(
                    m.popped(5),
                    heap.with_object(
                        o.buffer.id,
                        ObjectView::Buffer(
                            overwritten(
                                dst,
                                from,
                                o.src_offset as int,
                                o.offset as int,
                                o.len as int,
                            ),
                        ),
                    ).released_all(seq![Value::Buffer(o.buffer), Value::Buffer(o.src)]),
                )
            },
            _ => Effect::fail(OpError::IndexWrite(o.len), m, heap),
        },
    }
}

/// A new vector of `len` zero bytes.
pub fn zero_bytes(len: usize) -> (r: Vec<u8>)
    ensures
        r@ == zeros(len as nat),
{
    let mut r: Vec<u8> = Vec::new();
    while r.len() < len
        invariant
            r@.len() <= len,
            r@ == zeros(r@.len()),
        decreases len - r.len(),
    {
        r.push(0);
        assert(r@ =~= zeros(r@.len()));
    }
    r
}

pub fn exec_buffer_create(m: &mut CallStack, heap: &mut Heap) -> (r: Result<OpAction, OpError>)
    requires
        old(heap).wf(),
    ensures
        agrees(effect_buffer_create(old(m)@, old(heap)@), r, final(m)@, final(heap)@),
        final(heap).wf(),
{
    let len = need_integer(m.peek(0)?)?;
    match to_place(len) {
        Some(len) => {
            m.take(1);
            let val = Buffer::new(heap, zero_bytes(len));
            m.push(Value::Buffer(val));
            Ok(OpAction::Next)
        },
        None => Err(OpError::BadType(ValueType::Integer)),
    }
}

pub fn exec_buffer_get_slice(m: &mut CallStack, heap: &mut Heap) -> (r: Result<OpAction, OpError>)
    requires
        old(heap).wf(),
    ensures
        agrees(effect_buffer_get_slice(old(m)@, old(heap)@), r, final(m)@, final(heap)@),
        final(heap).wf(),
{
    let b = need_integer(m.peek(0)?)?;
    let a = need_integer(m.peek(1)?)?;
    let buffer = need_buffer(m.peek(2)?)?;
    proof {
        heap.lemma_lengths();
    }
    let slice = match (to_place(a), to_place(b)) {
        (Some(from), Some(to)) => buffer.get_slice(heap, from, to),
        _ => None,
    };
    match slice {
        Some(slice) => {
            m.take(3);
            heap.release(Value::Buffer(buffer));
            m.push(Value::Buffer(slice));
            Ok(OpAction::Next)
        },
        None => Err(OpError::IndexRead(b)),
    }
}

pub fn exec_buffer_set_slice(m: &mut CallStack, heap: &mut Heap) -> (r: Result<OpAction, OpError>)
    requires
        old(heap).wf(),
    ensures
        agrees(effect_buffer_set_slice(old(m)@, old(heap)@), r, final(m)@, final(heap)@),
        final(heap).wf(),
{
    let len = need_integer(m.peek(0)?)?;
    let offset = need_integer(m.peek(1)?)?;
    let src_offset = need_integer(m.peek(2)?)?;
    let src = need_buffer(m.peek(3)?)?;
    let buffer = need_buffer(m.peek(4)?)?;
    proof {
        heap.lemma_lengths();
    }
    let done = match (to_place(src_offset), to_place(offset), to_place(len)) {
        (Some(src_offset), Some(offset), Some(len)) => buffer.set_slice(
            heap,
            &src,
            src_offset,
            offset,
            len,
        ),
        _ => None,
    };
    match done {
        Some(_) => {
            m.take(5);
            let mut given_up: Vec<Value> = Vec::new();
            given_up.push(Value::Buffer(buffer));
            given_up.push(Value::Buffer(src));
            assert(given_up@ =~= seq![Value::Buffer(buffer), Value::Buffer(src)]);
            heap.release_all(given_up);
            Ok(OpAction::Next)
        },
        None => Err(OpError::IndexWrite(len)),
    }
}

} // verus!
