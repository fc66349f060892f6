use vstd::prelude::*;
use crate::bytecode::op::{agrees, need_integer, Effect, OpAction, OpError};
use crate::bytecode::ops::list::{place, to_place};
use crate::bytecode::ops::tuple::items_of;
use crate::callstack::{CallStack, CallStackView};
use crate::datamodel::buffer::{copy_bytes, zeros};
use crate::datamodel::table::{assigned, integer_key, listed, lookup, to_key};
use crate::datamodel::tuple::{copy_values, nils};
use crate::datamodel::{
    Heap, HeapView, List, ObjectView, Tuple, Value, ValueTryIntoError, ValueType,
};

verus! {

/// The cells of a tuple; none where the handle leads to no tuple.
pub open spec fn cells_of(heap: HeapView, t: Tuple) -> Seq<Value> {
    match heap.tuple(t) {
        Some(items) => items,
        None => Seq::empty(),
    }
}

/// The bytes of a buffer; none where the handle leads to no buffer.
pub open spec fn bytes_in(heap: HeapView, b: crate::datamodel::Buffer) -> Seq<u8> {
    match heap.buffer(b) {
        Some(items) => items,
        None => Seq::empty(),
    }
}

/// The bytes as integer values.
pub open spec fn integers_of(bytes: Seq<u8>) -> Seq<Value> {
    Seq::new(bytes.len(), |i: int| Value::Integer(bytes[i] as i64))
}

/// The lowest eight bits of an integer.
pub open spec fn low_byte(i: i64) -> u8 {
    i as u8
}

pub fn to_low_byte(i: i64) -> (b: u8)
    ensures
        b == low_byte(i),
{
    #[verifier::truncate]
    (i as u8)
}

/// The length that `SeqLen` finds: of a tuple, a list or a buffer.
pub open spec fn seq_length(heap: HeapView, seq: Value) -> Result<int, OpError> {
    match seq {
        Value::Tuple(t) => Ok(cells_of(heap, t).len() as int),
        Value::List(t) => Ok(items_of(heap, t).len() as int),
        Value::Buffer(t) => Ok(bytes_in(heap, t).len() as int),
        _ => Err(OpError::BadType(seq.kind())),
    }
}

/// `SeqLen` takes a sequence off the stack, gives up its handle, and puts its
/// length on the stack.
pub open spec fn effect_seq_len(m: CallStackView, heap: HeapView) -> Effect {
    if m.stack.len() < 1 {
        Effect::fail(OpError::StackEmpty, m, heap)
    } else {
        match seq_length(heap, m.top(0)) {
            Ok(len) => Effect::next(
                m.popped(1).pushed(Value::Integer(len as i64)),
                heap.released(m.top(0)),
            ),
            Err(e) => Effect::fail(e, m, heap),
        }
    }
}

/// The arena after a list or a buffer was made `len` long.
pub open spec fn seq_resized(heap: HeapView, seq: Value, len: int) -> Result<HeapView, OpError> {
    match seq {
        Value::List(t) => if 0 <= len <= usize::MAX {
            Ok(
                match heap.list(t) {
                    Some(items) => if len <= items.len() {
                        heap.with_object(
                            t.id,
                            ObjectView::List(items.subrange(0, len)),
                        ).released_all(items.subrange(len, items.len() as int))
                    } else {
                        heap.with_object(
                            t.id,
                            ObjectView::List(items + nils((len - items.len()) as nat)),
                        )
                    },
                    None => heap,
                },
            )
        } else {
            Err(OpError::BadType(ValueType::Integer))
        },
        Value::Buffer(t) => if 0 <= len <= usize::MAX {
            Ok(
                match heap.buffer(t) {
                    Some(items) => heap.with_object(
                        t.id,
                        ObjectView::Buffer(
                            if len <= items.len() {
                                items.subrange(0, len)
                            } else {
                                items + zeros((len - items.len()) as nat)
                            },
                        ),
                    ),
                    None => heap,
                },
            )
        } else {
            Err(OpError::BadType(ValueType::Integer))
        },
        _ => Err(OpError::BadType(seq.kind())),
    }
}

/// `SeqResize` takes a length and then a list or a buffer off the stack and
/// makes the sequence that long. A longer sequence loses its tail; a shorter
/// one is filled up, a list with nothing and a buffer with zeros. The handle
/// to the sequence is given up. A length below zero is an error.
pub open spec fn effect_seq_resize(m: CallStackView, heap: HeapView) -> Effect {
    if m.stack.len() < 1 {
        Effect::fail(OpError::StackEmpty, m, heap)
    } else {
        match m.top(0) {
            Value::Integer(len) => if m.stack.len() < 2 {
                Effect::fail(OpError::StackEmpty, m, heap)
            } else {
                match seq_resized(heap, m.top(1), len as int) {
                    Ok(h) => Effect::next(m.popped(2), h.released(m.top(1))),
                    Err(e) => Effect::fail(e, m, heap),
                }
            },
            v => Effect::fail(OpError::IntoType(v.mismatch(ValueType::Integer)), m, heap),
        }
    }
}

/// A value together with the arena after it was read or written.
pub struct Got {
    pub value: Value,
    pub heap: HeapView,
}

/// What `seq_get` finds at `index`, and the arena after the copy was counted.
///
/// * A tuple or a list gives a copy of the item at that place.
/// * A table gives a copy of the value under that key, and nothing where the
///   key is missing.
/// * A buffer gives the byte at that place as an integer.
pub open spec fn seq_got(heap: HeapView, seq: Value, index: i64) -> Result<Got, OpError> {
    match seq {
        Value::Tuple(t) => match heap.tuple(t) {
            Some(items) if 0 <= index < items.len() => Ok(
                Got { value: items[index as int], heap: heap.retained(items[index as int]) },
            ),
            _ => Err(OpError::IndexRead(index)),
        },
        Value::Table(t) => match heap.table(t) {
            Some(items) => match lookup(items, integer_key(index)) {
                Some(v) => Ok(Got { value: v, heap: heap.retained(v) }),
                None => Ok(Got { value: Value::Nil, heap }),
            },
            None => Ok(Got { value: Value::Nil, heap }),
        },
        Value::List(t) => match heap.list(t) {
            Some(items) if 0 <= index < items.len() => Ok(
                Got { value: items[index as int], heap: heap.retained(items[index as int]) },
            ),
            _ => Err(OpError::IndexRead(index)),
        },
        Value::Buffer(t) => match heap.buffer(t) {
            Some(items) if 0 <= index < items.len() => Ok(
                Got { value: Value::Integer(items[index as int] as i64), heap },
            ),
            _ => Err(OpError::IndexRead(index)),
        },
        _ => Err(OpError::BadType(seq.kind())),
    }
}

/// `SeqGet` takes an index and then a sequence off the stack and puts what
/// it finds there on the stack. The handle to the sequence is given up.
pub open spec fn effect_seq_get(m: CallStackView, heap: HeapView) -> Effect {
    if m.stack.len() < 1 {
        Effect::fail(OpError::StackEmpty, m, heap)
    } else {
        match m.top(0) {
            Value::Integer(index) => if m.stack.len() < 2 {
                Effect::fail(OpError::StackEmpty, m, heap)
            } else {
                match seq_got(heap, m.top(1), index) {
                    Ok(got) => Effect::next(
                        m.popped(2).pushed(got.value),
                        got.heap.released(m.top(1)),
                    ),
                    Err(e) => Effect::fail(e, m, heap),
                }
            },
            v => Effect::fail(OpError::IntoType(v.mismatch(ValueType::Integer)), m, heap),
        }
    }
}

/// What `seq_set` replaces at `index`, and the arena after a copy of `val`
/// was put there.
///
/// * A tuple or a list takes the copy at that place.
/// * A table takes it under that key; a copy of nothing removes the key.
/// * A buffer takes the lowest eight bits of an integer at that place.
pub open spec fn seq_put(heap: HeapView, seq: Value, index: i64, val: Value) -> Result<
    Got,
    OpError,
> {
    match seq {
        Value::Tuple(t) => match heap.tuple(t) {
            Some(items) if 0 <= index < items.len() => Ok(
                Got {
                    value: items[index as int],
                    heap: heap.retained(val).with_object(
                        t.id,
                        ObjectView::Tuple(items.update(index as int, val)),
                    ),
                },
            ),
            _ => Err(OpError::IndexWrite(index)),
        },
        Value::Table(t) => match heap.table(t) {
            Some(items) => Ok(
                Got {
                    value: match lookup(items, integer_key(index)) {
                        Some(v) => v,
                        None => Value::Nil,
                    },
                    heap: heap.retained(val).with_object(
                        t.id,
                        ObjectView::Table(assigned(items, integer_key(index), val)),
                    ),
                },
            ),
            None => Ok(Got { value: Value::Nil, heap }),
        },
        Value::List(t) => match heap.list(t) {
            Some(items) if 0 <= index < items.len() => Ok(
                Got {
                    value: items[index as int],
                    heap: heap.retained(val).with_object(
                        t.id,
                        ObjectView::List(items.update(index as int, val)),
                    ),
                },
            ),
            _ => Err(OpError::IndexWrite(index)),
        },
        Value::Buffer(t) => match val {
            Value::Integer(i) => match heap.buffer(t) {
                Some(items) if 0 <= index < items.len() => Ok(
                    Got {
                        value: Value::Integer(items[index as int] as i64),
                        heap: heap.with_object(
                            t.id,
                            ObjectView::Buffer(items.update(index as int, low_byte(i))),
                        ),
                    },
                ),
                _ => Err(OpError::IndexWrite(index)),
            },
            _ => Err(OpError::IntoType(val.mismatch(ValueType::Integer))),
        },
        _ => Err(OpError::BadType(seq.kind())),
    }
}

/// `SeqSet` takes a value, then an index, then a sequence off the stack and
/// puts the value at that place. The handles to the sequence and to what
/// stood there before are given up.
pub open spec fn effect_seq_set(m: CallStackView, heap: HeapView) -> Effect {
    if m.stack.len() < 2 {
        Effect::fail(OpError::StackEmpty, m, heap)
    } else {
        match m.top(1) {
            Value::Integer(index) => if m.stack.len() < 3 {
                Effect::fail(OpError::StackEmpty, m, heap)
            } else {
                match seq_put(heap, m.top(2), index, m.top(0)) {
                    Ok(got) => Effect::next(
                        m.popped(3),
                        got.heap.released_all(seq![m.top(2), m.top(0), got.value]),
                    ),
                    Err(e) => Effect::fail(e, m, heap),
                }
            },
            v => Effect::fail(OpError::IntoType(v.mismatch(ValueType::Integer)), m, heap),
        }
    }
}

/// Values together with the arena after they were made.
pub struct Listing {
    pub items: Seq<Value>,
    pub heap: HeapView,
}

/// The pairs of a table as the tuples that `Table::to_vec` makes of them in
/// an arena that has `base` slots.
pub open spec fn pair_tuples(count: nat, base: nat) -> Seq<Value> {
    Seq::new(count, |i: int| Value::Tuple(Tuple { id: (base + i) as usize }))
}

/// The items that `seq_to_vec` finds, and the arena after they were copied.
///
/// * A tuple or a list gives copies of its items.
/// * A table gives a new tuple of key and value for each pair, in rising
///   order of the keys.
/// * A buffer gives its bytes as integers.
pub open spec fn seq_listing(heap: HeapView, seq: Value) -> Result<Listing, OpError> {
    match seq {
        Value::Tuple(t) => Ok(
            Listing { items: cells_of(heap, t), heap: heap.retained_all(cells_of(heap, t)) },
        ),
        Value::Table(t) => match heap.table(t) {
            Some(items) => Ok(
                Listing {
                    items: pair_tuples(items.len(), heap.slots.len()),
                    heap: listed(heap, items),
                },
            ),
            None => Ok(Listing { items: Seq::empty(), heap }),
        },
        Value::List(t) => Ok(
            Listing { items: items_of(heap, t), heap: heap.retained_all(items_of(heap, t)) },
        ),
        Value::Buffer(t) => Ok(Listing { items: integers_of(bytes_in(heap, t)), heap }),
        _ => Err(OpError::BadType(seq.kind())),
    }
}

/// `SeqToList` takes a sequence off the stack and puts a new list of its
/// items on it. The handle to the sequence is given up.
pub open spec fn effect_seq_to_list(m: CallStackView, heap: HeapView) -> Effect {
    if m.stack.len() < 1 {
        Effect::fail(OpError::StackEmpty, m, heap)
    } else {
        match seq_listing(heap, m.top(0)) {
            Ok(l) => Effect::next(
                m.popped(1).pushed(Value::List(List { id: l.heap.slots.len() as usize })),
                l.heap.allocated(ObjectView::List(l.items)).released(m.top(0)),
            ),
            Err(e) => Effect::fail(e, m, heap),
        }
    }
}

/// The lowest eight bits of each of the integers, or the error of the first
/// value that is no integer.
pub open spec fn bytes_from(items: Seq<Value>) -> Result<Seq<u8>, OpError>
    decreases items.len(),
{
    if items.len() == 0 {
        Ok(Seq::empty())
    } else {
        match bytes_from(items.drop_last()) {
            Err(e) => Err(e),
            Ok(bytes) => match items.last() {
                Value::Integer(i) => Ok(bytes.push(low_byte(i))),
                v => Err(OpError::IntoType(v.mismatch(ValueType::Integer))),
            },
        }
    }
}

/// The bytes that a sequence gives to a buffer: a buffer its bytes, a tuple
/// or a list the lowest eight bits of its integers. The pairs of a table are
/// no integers, so only a table without pairs gives anything: no bytes.
pub open spec fn bytes_of(heap: HeapView, src: Value) -> Result<Seq<u8>, OpError> {
    match src {
        Value::Tuple(t) => bytes_from(cells_of(heap, t)),
        Value::List(t) => bytes_from(items_of(heap, t)),
        Value::Table(t) => match heap.table(t) {
            Some(items) if items.len() > 0 => Err(
                OpError::IntoType(
                    ValueTryIntoError { found: ValueType::Tuple, expected: ValueType::Integer },
                ),
            ),
            _ => Ok(Seq::empty()),
        },
        Value::Buffer(t) => Ok(bytes_in(heap, t)),
        _ => Err(OpError::BadType(src.kind())),
    }
}

/// The arena after the items of `src` were appended to `seq`.
pub open spec fn seq_appended(heap: HeapView, seq: Value, src: Value) -> Result<HeapView, OpError> {
    match seq {
        Value::List(list) => match seq_listing(heap, src) {
            Ok(l) => Ok(
                match l.heap.list(list) {
                    Some(items) => l.heap.with_object(list.id, ObjectView::List(items + l.items)),
                    None => l.heap,
                },
            ),
            Err(e) => Err(e),
        },
        Value::Buffer(buffer) => match bytes_of(heap, src) {
            Ok(bytes) => Ok(
                match heap.buffer(buffer) {
                    Some(items) => heap.with_object(buffer.id, ObjectView::Buffer(items + bytes)),
                    None => heap,
                },
            ),
            Err(e) => Err(e),
        },
        _ => Err(OpError::BadType(seq.kind())),
    }
}

/// `SeqAppend` takes a source and then a list or a buffer off the stack and
/// appends the items of the source. The items are read before any is
/// appended, so the source may be the sequence itself. Both handles are given
/// up.
pub open spec fn effect_seq_append(m: CallStackView, heap: HeapView) -> Effect {
    if m.stack.len() < 2 {
        Effect::fail(OpError::StackEmpty, m, heap)
    } else {
        match seq_appended(heap, m.top(1), m.top(0)) {
            Ok(h) => Effect::next(m.popped(2), h.released_all(seq![m.top(1), m.top(0)])),
            Err(e) => Effect::fail(e, m, heap),
        }
    }
}

/// The length of a tuple, a list or a buffer.
pub fn seq_len(heap: &Heap, seq: &Value) -> (r: Result<usize, OpError>)
    ensures
        match r {
            Ok(n) => seq_length(heap@, *seq) == Ok::<int, OpError>(n as int),
            Err(e) => seq_length(heap@, *seq) == Err::<int, OpError>(e),
        },
{
    match seq {
        Value::Tuple(t) => Ok(t.len(heap)),
        Value::List(t) => Ok(t.len(heap)),
        Value::Buffer(t) => Ok(t.len(heap)),
        _ => Err(OpError::BadType(seq.get_type())),
    }
}

pub fn exec_seq_len(m: &mut CallStack, heap: &mut Heap) -> (r: Result<OpAction, OpError>)
    requires
        old(heap).wf(),
    ensures
        agrees(effect_seq_len(old(m)@, old(heap)@), r, final(m)@, final(heap)@),
        final(heap).wf(),
{
    let seq = m.peek(0)?;
    let len = seq_len(heap, &seq)?;
    m.take(1);
    heap.release(seq);
    m.push(length_value(len));
    Ok(OpAction::Next)
}

/// A length as an integer value.
fn length_value(len: usize) -> (v: Value)
    ensures
        v == Value::Integer(len as i64),
{
    Value::Integer(
        #[verifier::truncate]
        (len as i64),
    )
}

/// Makes a list or a buffer `len` long.
pub fn seq_resize(heap: &mut Heap, seq: &Value, len: i64) -> (r: Result<(), OpError>)
    requires
        old(heap).wf(),
    ensures
        match r {
            Ok(_) => seq_resized(old(heap)@, *seq, len as int) == Ok::<HeapView, OpError>(
                final(heap)@,
            ),
            Err(e) => seq_resized(old(heap)@, *seq, len as int) == Err::<HeapView, OpError>(e)
                && final(heap)@ == old(heap)@,
        },
        final(heap).wf(),
{
    match seq {
        Value::List(t) => match to_place(len) {
            Some(len) => {
                t.resize(heap, len);
                Ok(())
            },
            None => Err(OpError::BadType(ValueType::Integer)),
        },
        Value::Buffer(t) => match to_place(len) {
            Some(len) => {
                t.resize(heap, len);
                Ok(())
            },
            None => Err(OpError::BadType(ValueType::Integer)),
        },
        _ => Err(OpError::BadType(seq.get_type())),
    }
}

pub fn exec_seq_resize(m: &mut CallStack, heap: &mut Heap) -> (r: Result<OpAction, OpError>)
    requires
        old(heap).wf(),
    ensures
        agrees(effect_seq_resize(old(m)@, old(heap)@), r, final(m)@, final(heap)@),
        final(heap).wf(),
{
    let len = need_integer(m.peek(0)?)?;
    let seq = m.peek(1)?;
    seq_resize(heap, &seq, len)?;
    m.take(2);
    heap.release(seq);
    Ok(OpAction::Next)
}

/// A copy of what stands at `index` in a sequence.
pub fn seq_get(heap: &mut Heap, seq: &Value, index: i64) -> (r: Result<Value, OpError>)
    requires
        old(heap).wf(),
    ensures
        match r {
            Ok(v) => seq_got(old(heap)@, *seq, index) == Ok::<Got, OpError>(
                Got { value: v, heap: final(heap)@ },
            ),
            Err(e) => seq_got(old(heap)@, *seq, index) == Err::<Got, OpError>(e) && final(heap)@
                == old(heap)@,
        },
        final(heap).wf(),
{
    match seq {
        Value::Tuple(t) => {
            proof {
                heap.lemma_lengths();
            }
            match to_place(index) {
                Some(at) => match t.get(heap, at) {
                    Some(v) => Ok(v),
                    None => Err(OpError::IndexRead(index)),
                },
                None => Err(OpError::IndexRead(index)),
            }
        },
        Value::Table(t) => match t.get(heap, to_key(index)) {
            Some(v) => Ok(v),
            None => Ok(Value::Nil),
        },
        Value::List(t) => {
            proof {
                heap.lemma_lengths();
            }
            match to_place(index) {
                Some(at) => match t.get(heap, at) {
                    Some(v) => Ok(v),
                    None => Err(OpError::IndexRead(index)),
                },
                None => Err(OpError::IndexRead(index)),
            }
        },
        Value::Buffer(t) => {
            proof {
                heap.lemma_lengths();
            }
            match to_place(index) {
                Some(at) => match t.get(heap, at) {
                    Some(v) => Ok(v),
                    None => Err(OpError::IndexRead(index)),
                },
                None => Err(OpError::IndexRead(index)),
            }
        },
        _ => Err(OpError::BadType(seq.get_type())),
    }
}

pub fn exec_seq_get(m: &mut CallStack, heap: &mut Heap) -> (r: Result<OpAction, OpError>)
    requires
        old(heap).wf(),
    ensures
        agrees(effect_seq_get(old(m)@, old(heap)@), r, final(m)@, final(heap)@),
        final(heap).wf(),
{
    let index = need_integer(m.peek(0)?)?;
    let seq = m.peek(1)?;
    let val = seq_get(heap, &seq, index)?;
    m.take(2);
    heap.release(seq);
    m.push(val);
    Ok(OpAction::Next)
}

/// Puts a copy of `val` at `index` in a sequence and returns what stood
/// there. The caller takes over the handle in the result.
pub fn seq_set(heap: &mut Heap, seq: &Value, index: i64, val: &Value) -> (r: Result<Value, OpError>)
    requires
        old(heap).wf(),
    ensures
        match r {
            Ok(v) => seq_put(old(heap)@, *seq, index, *val) == Ok::<Got, OpError>(
                Got { value: v, heap: final(heap)@ },
            ),
            Err(e) => seq_put(old(heap)@, *seq, index, *val) == Err::<Got, OpError>(e) && final(heap)@ == old(heap)@,
        },
        final(heap).wf(),
{
    match seq {
        Value::Tuple(t) => {
            let n = t.len(heap);
            let at = match to_place(index) {
                Some(at) => at,
                None => {
                    return Err(OpError::IndexWrite(index));
                },
            };
            if at >= n {
                return Err(OpError::IndexWrite(index));
            }
            heap.retain(val);
            proof {
                crate::datamodel::heap::lemma_retained_keeps(old(heap)@, *val);
            }
            match t.set(heap, at, *val) {
                Some(v) => Ok(v),
                None => Ok(Value::Nil),
            }
        },
        Value::Table(t) => {
            if t.is_valid(heap) {
                heap.retain(val);
                proof {
                    crate::datamodel::heap::lemma_retained_keeps(old(heap)@, *val);
                }
                match t.set(heap, to_key(index), *val) {
                    Some(v) => Ok(v),
                    None => Ok(Value::Nil),
                }
            } else {
                Ok(Value::Nil)
            }
        },
        Value::List(t) => {
            let n = t.len(heap);
            let at = match to_place(index) {
                Some(at) => at,
                None => {
                    return Err(OpError::IndexWrite(index));
                },
            };
            if at >= n {
                return Err(OpError::IndexWrite(index));
            }
            heap.retain(val);
            proof {
                crate::datamodel::heap::lemma_retained_keeps(old(heap)@, *val);
            }
            match t.set(heap, at, *val) {
                Some(v) => Ok(v),
                None => Ok(Value::Nil),
            }
        },
        Value::Buffer(t) => {
            let byte = to_low_byte(need_integer(*val)?);
            proof {
                heap.lemma_lengths();
            }
            match to_place(index) {
                Some(at) => match t.set(heap, at, byte) {
                    Some(v) => Ok(v),
                    None => Err(OpError::IndexWrite(index)),
                },
                None => Err(OpError::IndexWrite(index)),
            }
        },
        _ => Err(OpError::BadType(seq.get_type())),
    }
}

pub fn exec_seq_set(m: &mut CallStack, heap: &mut Heap) -> (r: Result<OpAction, OpError>)
    requires
        old(heap).wf(),
    ensures
        agrees(effect_seq_set(old(m)@, old(heap)@), r, final(m)@, final(heap)@),
        final(heap).wf(),
{
    let val = m.peek(0)?;
    let index = need_integer(m.peek(1)?)?;
    let seq = m.peek(2)?;
    let previous = seq_set(heap, &seq, index, &val)?;
    m.take(3);
    let mut given_up: Vec<Value> = Vec::new();
    given_up.push(seq);
    given_up.push(val);
    given_up.push(previous);
    assert(given_up@ =~= seq![seq, val, previous]);
    heap.release_all(given_up);
    Ok(OpAction::Next)
}

/// The bytes as integer values.
pub fn to_integers(bytes: &[u8]) -> (r: Vec<Value>)
    ensures
        r@ == integers_of(bytes@),
{
    let mut r: Vec<Value> = Vec::new();
    let mut i: usize = 0;
    while i < bytes.len()
        invariant
            i <= bytes.len(),
            r@ == integers_of(bytes@.subrange(0, i as int)),
        decreases bytes.len() - i,
    {
        r.push(crate::datamodel::buffer::byte_value(bytes[i]));
        assert(r@ =~= integers_of(bytes@.subrange(0, i + 1)));
        i += 1;
    }
    assert(bytes@.subrange(0, bytes@.len() as int) =~= bytes@);
    r
}

/// Copies of the items of a sequence.
pub fn seq_to_vec(heap: &mut Heap, seq: &Value) -> (r: Result<Vec<Value>, OpError>)
    requires
        old(heap).wf(),
    ensures
        match r {
            Ok(v) => seq_listing(old(heap)@, *seq) == Ok::<Listing, OpError>(
                Listing { items: v@, heap: final(heap)@ },
            ),
            Err(e) => seq_listing(old(heap)@, *seq) == Err::<Listing, OpError>(e) && final(heap)@
                == old(heap)@,
        },
        final(heap).wf(),
{
    match seq {
        Value::Tuple(t) => Ok(t.iter(heap)),
        Value::Table(t) => {
            let v = t.to_vec(heap);
            proof {
                if old(heap)@.table(*t) is Some {
                    assert(v@ =~= pair_tuples(
                        old(heap)@.table(*t)->0.len(),
                        old(heap)@.slots.len(),
                    ));
                } else {
                    assert(v@ =~= Seq::<Value>::empty());
                }
            }
            Ok(v)
        },
        Value::List(t) => {
            let v = copy_values(t.as_slice(heap));
            heap.retain_all(v.as_slice());
            Ok(v)
        },
        Value::Buffer(t) => Ok(to_integers(t.as_slice(heap))),
        _ => Err(OpError::BadType(seq.get_type())),
    }
}

pub fn exec_seq_to_list(m: &mut CallStack, heap: &mut Heap) -> (r: Result<OpAction, OpError>)
    requires
        old(heap).wf(),
    ensures
        agrees(effect_seq_to_list(old(m)@, old(heap)@), r, final(m)@, final(heap)@),
        final(heap).wf(),
{
    let seq = m.peek(0)?;
    let items = seq_to_vec(heap, &seq)?;
    m.take(1);
    let list = List::new(heap, items);
    heap.release(seq);
    m.push(Value::List(list));
    Ok(OpAction::Next)
}

fn to_bytes(items: &[Value]) -> (r: Result<Vec<u8>, OpError>)
    ensures
        match r {
            Ok(b) => bytes_from(items@) == Ok::<Seq<u8>, OpError>(b@),
            Err(e) => bytes_from(items@) == Err::<Seq<u8>, OpError>(e),
        },
{
    let mut acc: Vec<u8> = Vec::new();
    let mut i: usize = 0;
    assert(items@.subrange(0, 0) =~= Seq::<Value>::empty());
    while i < items.len()
        invariant
            i <= items.len(),
            bytes_from(items@.subrange(0, i as int)) == Ok::<Seq<u8>, OpError>(acc@),
        decreases items.len() - i,
    {
        let ghost sub = items@.subrange(0, i + 1);
        assert(sub.drop_last() =~= items@.subrange(0, i as int));
        assert(sub.last() == items@[i as int]);
        match need_integer(items[i]) {
            Ok(v) => {
                acc.push(to_low_byte(v));
            },
            Err(e) => {
                proof {
                    lemma_bytes_from_error(items@, i as int);
                }
                return Err(e);
            },
        }
        i += 1;
    }
    assert(items@.subrange(0, items@.len() as int) =~= items@);
    Ok(acc)
}

/// The bytes that a sequence gives to a buffer.
pub fn seq_bytes(heap: &Heap, src: &Value) -> (r: Result<Vec<u8>, OpError>)
    ensures
        match r {
            Ok(b) => bytes_of(heap@, *src) == Ok::<Seq<u8>, OpError>(b@),
            Err(e) => bytes_of(heap@, *src) == Err::<Seq<u8>, OpError>(e),
        },
{
    match src {
        Value::Tuple(t) => to_bytes(t.cells(heap)),
        Value::List(t) => to_bytes(t.as_slice(heap)),
        Value::Table(t) => {
            if t.pairs(heap).len() > 0 {
                Err(
                    OpError::IntoType(
                        ValueTryIntoError {
                            found: ValueType::Tuple,
                            expected: ValueType::Integer,
                        },
                    ),
                )
            } else {
                Ok(Vec::new())
            }
        },
        Value::Buffer(t) => Ok(copy_bytes(t.as_slice(heap))),
        _ => Err(OpError::BadType(src.get_type())),
    }
}

/// Appends the items of `src` to a list or a buffer.
pub fn seq_append(heap: &mut Heap, seq: &Value, src: &Value) -> (r: Result<(), OpError>)
    requires
        old(heap).wf(),
    ensures
        match r {
            Ok(_) => seq_appended(old(heap)@, *seq, *src) == Ok::<HeapView, OpError>(final(heap)@),
            Err(e) => seq_appended(old(heap)@, *seq, *src) == Err::<HeapView, OpError>(e) && final(heap)@ == old(heap)@,
        },
        final(heap).wf(),
{
    match seq {
        Value::List(list) => {
            let items = seq_to_vec(heap, src)?;
            list.append(heap, items);
            Ok(())
        },
        Value::Buffer(buffer) => {
            let bytes = seq_bytes(heap, src)?;
            buffer.append(heap, bytes.as_slice());
            Ok(())
        },
        _ => Err(OpError::BadType(seq.get_type())),
    }
}

pub fn exec_seq_append(m: &mut CallStack, heap: &mut Heap) -> (r: Result<OpAction, OpError>)
    requires
        old(heap).wf(),
    ensures
        agrees(effect_seq_append(old(m)@, old(heap)@), r, final(m)@, final(heap)@),
        final(heap).wf(),
{
    let src = m.peek(0)?;
    let seq = m.peek(1)?;
    seq_append(heap, &seq, &src)?;
    m.take(2);
    let mut given_up: Vec<Value> = Vec::new();
    given_up.push(seq);
    given_up.push(src);
    assert(given_up@ =~= seq![seq, src]);
    heap.release_all(given_up);
    Ok(OpAction::Next)
}

/// Where the values before value `i` are integers and value `i` is none, the
/// error of the sequence is the error of value `i`.
pub proof fn lemma_bytes_from_error(items: Seq<Value>, i: int)
    requires
        0 <= i < items.len(),
        bytes_from(items.subrange(0, i)) is Ok,
        !(items[i] is Integer),
    ensures
        bytes_from(items) == Err::<Seq<u8>, OpError>(
            OpError::IntoType(items[i].mismatch(ValueType::Integer)),
        ),
    decreases items.len(),
{
    if i == items.len() - 1 {
        assert(items.drop_last() =~= items.subrange(0, i));
    } else {
        let init = items.drop_last();
        assert(init.subrange(0, i) =~= items.subrange(0, i));
        lemma_bytes_from_error(init, i);
    }
}

} // verus!
