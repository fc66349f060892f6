use vstd::prelude::*;
use super::heap::{Heap, Object, ObjectView};
use super::value::{Buffer, Value};

verus! {

/// `n` zero bytes.
pub open spec fn zeros(n: nat) -> Seq<u8> {
    Seq::new(n, |i: int| 0u8)
}

/// The bytes `dst` with `len` bytes from `offset` on replaced by the bytes of
/// `src` from `src_offset` on.
pub open spec fn overwritten(
    dst: Seq<u8>,
    src: Seq<u8>,
    src_offset: int,
    offset: int,
    len: int,
) -> Seq<u8> {
    dst.subrange(0, offset) + src.subrange(src_offset, src_offset + len) + dst.subrange(
        offset + len,
        dst.len() as int,
    )
}

/// A copy of the bytes.
pub fn copy_bytes(src: &[u8]) -> (r: Vec<u8>)
    ensures
        r@ == src@,
{
    let mut r: Vec<u8> = Vec::new();
    let mut i: usize = 0;
    while i < src.len()
        invariant
            i <= src.len(),
            r@ == src@.subrange(0, i as int),
        decreases src.len() - i,
    {
        r.push(src[i]);
        assert(r@ =~= src@.subrange(0, i + 1));
        i += 1;
    }
    assert(src@.subrange(0, src@.len() as int) =~= src@);
    r
}

/// The byte as an integer value.
pub fn byte_value(b: u8) -> (v: Value)
    ensures
        v == Value::Integer(b as i64),
{
    Value::Integer(b as i64)
}

impl Buffer {
    /// Makes a buffer of the given bytes.
    pub fn new(heap: &mut Heap, v: Vec<u8>) -> (b: Buffer)
        requires
            old(heap).wf(),
        ensures
            b.id == old(heap)@.slots.len(),
            final(heap)@ == old(heap)@.allocated(ObjectView::Buffer(v@)),
            final(heap).wf(),
    {
        let id = heap.allocate(Object::Buffer(v));
        Buffer { id }
    }

    /// Makes a buffer without bytes.
    pub fn empty(heap: &mut Heap) -> (b: Buffer)
        requires
            old(heap).wf(),
        ensures
            b.id == old(heap)@.slots.len(),
            final(heap)@ == old(heap)@.allocated(ObjectView::Buffer(Seq::empty())),
            final(heap).wf(),
    {
        Buffer::new(heap, Vec::new())
    }

    /// Whether the handle leads to a buffer.
    pub fn is_valid(&self, heap: &Heap) -> (r: bool)
        ensures
            r == heap@.buffer(*self) is Some,
    {
        if heap.is_live(self.id) {
            match &heap.slots[self.id].object {
                Object::Buffer(_) => true,
                _ => false,
            }
        } else {
            false
        }
    }

    /// The bytes, borrowed; none where the handle leads to no buffer.
    pub fn as_slice<'a>(&self, heap: &'a Heap) -> (r: &'a [u8])
        ensures
            r@ == (match heap@.buffer(*self) {
                Some(items) => items,
                None => Seq::empty(),
            }),
    {
        if heap.is_live(self.id) {
            match &heap.slots[self.id].object {
                Object::Buffer(items) => {
                    return items.as_slice();
                },
                _ => {},
            }
        }
        let none: &'a [u8] = &[];
        assert(none@ =~= Seq::empty());
        none
    }

    /// The number of bytes; 0 where the handle leads to no buffer.
    pub fn len(&self, heap: &Heap) -> (n: usize)
        ensures
            n == (match heap@.buffer(*self) {
                Some(items) => items.len(),
                None => 0,
            }),
    {
        self.as_slice(heap).len()
    }

    /// Makes the buffer `len` bytes long: a longer buffer loses its tail, a
    /// shorter one is filled up with zeros.
    pub fn resize(&self, heap: &mut Heap, len: usize)
        requires
            old(heap).wf(),
        ensures
            final(heap)@ == (match old(heap)@.buffer(*self) {
                Some(items) => old(heap)@.with_object(
                    self.id,
                    ObjectView::Buffer(
                        if len <= items.len() {
                            items.subrange(0, len as int)
                        } else {
                            items + zeros((len - items.len()) as nat)
                        },
                    ),
                ),
                None => old(heap)@,
            }),
            final(heap).wf(),
    {
        if !heap.is_live(self.id) {
            return ;
        }
        match &mut heap.slots[self.id].object {
            Object::Buffer(items) => {
                let ghost before = items@;
                if len <= items.len() {
                    items.truncate(len);
                    assert(heap@.slots =~= old(heap)@.with_object(
                        self.id,
                        ObjectView::Buffer(before.subrange(0, len as int)),
                    ).slots);
                } else {
                    while items.len() < len
                        invariant
                            before.len() <= items@.len() <= len,
                            items@ == before + zeros((items@.len() - before.len()) as nat),
                        decreases len - items.len(),
                    {
                        items.push(0);
                        assert(items@ =~= before + zeros((items@.len() - before.len()) as nat));
                    }
                    assert(heap@.slots =~= old(heap)@.with_object(
                        self.id,
                        ObjectView::Buffer(before + zeros((len - before.len()) as nat)),
                    ).slots);
                }
            },
            _ => {
                assert(heap@.slots =~= old(heap)@.slots);
            },
        }
    }

    /// Byte `index` as an integer.
    pub fn get(&self, heap: &Heap, index: usize) -> (r: Option<Value>)
        ensures
            r == (match heap@.buffer(*self) {
                Some(items) if index < items.len() => Some(
                    Value::Integer(items[index as int] as i64),
                ),
                _ => None,
            }),
    {
        let items = self.as_slice(heap);
        if index < items.len() {
            Some(byte_value(items[index]))
        } else {
            None
        }
    }

    /// Puts `value` in the place of byte `index` and returns what was there,
    /// as an integer.
    pub fn set(&self, heap: &mut Heap, index: usize, value: u8) -> (r: Option<Value>)
        requires
            old(heap).wf(),
        ensures
            match old(heap)@.buffer(*self) {
                Some(items) if index < items.len() => r == Some(
                    Value::Integer(items[index as int] as i64),
                ) && final(heap)@ == old(heap)@.with_object(
                    self.id,
                    ObjectView::Buffer(items.update(index as int, value)),
                ),
                _ => r is None && final(heap)@ == old(heap)@,
            },
            final(heap).wf(),
    {
        if !heap.is_live(self.id) {
            return None;
        }
        match &mut heap.slots[self.id].object {
            Object::Buffer(items) => {
                if index < items.len() {
                    let previous = items[index];
                    items.set(index, value);
                    assert(heap@.slots =~= old(heap)@.with_object(
                        self.id,
                        ObjectView::Buffer(old(heap)@.buffer(*self)->0.update(index as int, value)),
                    ).slots);
                    Some(byte_value(previous))
                } else {
                    assert(heap@.slots =~= old(heap)@.slots);
                    None
                }
            },
            _ => {
                assert(heap@.slots =~= old(heap)@.slots);
                None
            },
        }
    }

    /// A new buffer with the bytes from `a` up to, not including, `b`.
    /// Nothing where this is no range of the buffer.
    pub fn get_slice(&self, heap: &mut Heap, a: usize, b: usize) -> (r: Option<Buffer>)
        requires
            old(heap).wf(),
        ensures
            match old(heap)@.buffer(*self) {
                Some(items) if a <= b <= items.len() => r == Some(
                    Buffer { id: old(heap)@.slots.len() as usize },
                ) && final(heap)@ == old(heap)@.allocated(
                    ObjectView::Buffer(items.subrange(a as int, b as int)),
                ),
                _ => r is None && final(heap)@ == old(heap)@,
            },
            final(heap).wf(),
    {
        let items = self.as_slice(heap);
        if self.is_valid(heap) && a <= b && b <= items.len() {
            let v = copy_bytes(vstd::slice::slice_subrange(items, a, b));
            Some(Buffer::new(heap, v))
        } else {
            None
        }
    }

    /// Copies `len` bytes of `src`, from `src_offset` on, over the bytes of
    /// this buffer from `offset` on. The bytes are read before any is
    /// written, so the two may be the same buffer and the ranges may overlap.
    /// Nothing is done, and nothing returned, unless both ranges lie within
    /// their buffers.
    pub fn set_slice(
        &self,
        heap: &mut Heap,
        src: &Buffer,
        src_offset: usize,
        offset: usize,
        len: usize,
    ) -> (r: Option<()>)
        requires
            old(heap).wf(),
        ensures
            match (old(heap)@.buffer(*self), old(heap)@.buffer(*src)) {
                (Some(dst), Some(from)) if src_offset + len <= from.len() && offset + len
                    <= dst.len() => r is Some && final(heap)@ == old(heap)@.with_object(
                    self.id,
                    ObjectView::Buffer(
                        overwritten(dst, from, src_offset as int, offset as int, len as int),
                    ),
                ),
                _ => r is None && final(heap)@ == old(heap)@,
            },
            final(heap).wf(),
    {
        if !self.is_valid(heap) || !src.is_valid(heap) {
            return None;
        }
        let from = src.as_slice(heap);
        if len > from.len() || src_offset > from.len() - len {
            return None;
        }
        let dst_len = self.len(heap);
        if len > dst_len || offset > dst_len - len {
            return None;
        }
        let bytes = copy_bytes(vstd::slice::slice_subrange(from, src_offset, src_offset + len));
        match &mut heap.slots[self.id].object {
            Object::Buffer(items) => {
                let ghost before = items@;
                let mut i: usize = 0;
                assert(items.len() <= usize::MAX);
                assert(items@ =~= before.subrange(0, offset as int) + bytes@.subrange(0, 0)
                    + before.subrange(offset as int, before.len() as int));
                while i < len
                    invariant
                        i <= len,
                        len == bytes@.len(),
                        offset + len <= before.len(),
                        before.len() <= usize::MAX,
                        items@.len() == before.len(),
                        items@ == before.subrange(0, offset as int) + bytes@.subrange(0, i as int)
                            + before.subrange(offset + i, before.len() as int),
                    decreases len - i,
                {
                    items.set(offset + i, bytes[i]);
                    assert(items@ =~= before.subrange(0, offset as int) + bytes@.subrange(0, i + 1)
                        + before.subrange(offset + i + 1, before.len() as int));
                    i += 1;
                }
                assert(bytes@.subrange(0, len as int) =~= bytes@);
                assert(heap@.slots =~= old(heap)@.with_object(
                    self.id,
                    ObjectView::Buffer(
                        overwritten(
                            before,
                            old(heap)@.buffer(*src)->0,
                            src_offset as int,
                            offset as int,
                            len as int,
                        ),
                    ),
                ).slots);
                Some(())
            },
            _ => None,
        }
    }

    /// Appends bytes.
    pub fn append(&self, heap: &mut Heap, t: &[u8])
        requires
            old(heap).wf(),
        ensures
            final(heap)@ == (match old(heap)@.buffer(*self) {
                Some(items) => old(heap)@.with_object(self.id, ObjectView::Buffer(items + t@)),
                None => old(heap)@,
            }),
            final(heap).wf(),
    {
        if !heap.is_live(self.id) {
            return ;
        }
        match &mut heap.slots[self.id].object {
            Object::Buffer(items) => {
                let ghost before = items@;
                let mut i: usize = 0;
                assert(items@ =~= before + t@.subrange(0, 0));
                while i < t.len()
                    invariant
                        i <= t.len(),
                        items@ == before + t@.subrange(0, i as int),
                    decreases t.len() - i,
                {
                    items.push(t[i]);
                    assert(items@ =~= before + t@.subrange(0, i + 1));
                    i += 1;
                }
                assert(t@.subrange(0, t@.len() as int) =~= t@);
                assert(heap@.slots =~= old(heap)@.with_object(
                    self.id,
                    ObjectView::Buffer(before + t@),
                ).slots);
            },
            _ => {
                assert(heap@.slots =~= old(heap)@.slots);
            },
        }
    }
}

} // verus!
