use vstd::prelude::*;
use super::heap::{Heap, HeapView, Object, ObjectView};
use super::value::{Tuple, TupleWeak, Value};

verus! {

/// A copy of the values, with no handle counted.
pub fn copy_values(src: &[Value]) -> (r: Vec<Value>)
    ensures
        r@ == src@,
{
    let mut r: Vec<Value> = Vec::new();
    let mut i: usize = 0;
    while i < src.len()
        invariant
            i <= src.len(),
            r@ == src@.subrange(0, i as int),
        decreases src.len() - i,
    {
        r.push(src[i]);
        assert(r@ =~= src@.subrange(0, i + 1));
        i += 1;
    }
    assert(src@.subrange(0, src@.len() as int) =~= src@);
    r
}

/// `n` times nothing.
pub open spec fn nils(n: nat) -> Seq<Value> {
    Seq::new(n, |i: int| Value::Nil)
}

impl Tuple {
    /// Makes a tuple of the given cells. The tuple takes over the handles in
    /// them.
    pub fn new(heap: &mut Heap, items: Vec<Value>) -> (t: Tuple)
        requires
            old(heap).wf(),
        ensures
            t.id == old(heap)@.slots.len(),
            final(heap)@ == old(heap)@.allocated(ObjectView::Tuple(items@)),
            final(heap).wf(),
    {
        let id = heap.allocate(Object::Tuple(items));
        Tuple { id }
    }

    /// Makes a tuple of copies of the given values.
    pub fn from_iter(heap: &mut Heap, items: &[Value]) -> (t: Tuple)
        requires
            old(heap).wf(),
        ensures
            t.id == old(heap)@.slots.len(),
            final(heap)@ == old(heap)@.retained_all(items@).allocated(ObjectView::Tuple(items@)),
            final(heap).wf(),
    {
        heap.retain_all(items);
        proof {
            lemma_retained_all_len(old(heap)@, items@);
        }
        Tuple::new(heap, copy_values(items))
    }

    /// Makes a tuple of `n` cells that hold nothing.
    pub fn empty(heap: &mut Heap, n: usize) -> (t: Tuple)
        requires
            old(heap).wf(),
        ensures
            t.id == old(heap)@.slots.len(),
            final(heap)@ == old(heap)@.allocated(ObjectView::Tuple(nils(n as nat))),
            final(heap).wf(),
    {
        let mut v: Vec<Value> = Vec::new();
        let mut i: usize = 0;
        while i < n
            invariant
                i <= n,
                v@ == nils(i as nat),
            decreases n - i,
        {
            v.push(Value::Nil);
            assert(v@ =~= nils((i + 1) as nat));
            i += 1;
        }
        Tuple::new(heap, v)
    }

    /// The cells, borrowed; none where the handle leads to no tuple.
    pub fn cells<'a>(&self, heap: &'a Heap) -> (r: &'a [Value])
        ensures
            r@ == (match heap@.tuple(*self) {
                Some(items) => items,
                None => Seq::empty(),
            }),
    {
        if heap.is_live(self.id) {
            match &heap.slots[self.id].object {
                Object::Tuple(items) => {
                    return items.as_slice();
                },
                _ => {},
            }
        }
        let none: &'a [Value] = &[];
        assert(none@ =~= Seq::empty());
        none
    }

    /// Copies of the cells, first to last.
    pub fn iter(&self, heap: &mut Heap) -> (r: Vec<Value>)
        requires
            old(heap).wf(),
        ensures
            match old(heap)@.tuple(*self) {
                Some(items) => r@ == items && final(heap)@ == old(heap)@.retained_all(items),
                None => r@ == Seq::<Value>::empty() && final(heap)@ == old(heap)@,
            },
            final(heap).wf(),
    {
        if !heap.is_live(self.id) {
            return Vec::new();
        }
        let r = match &heap.slots[self.id].object {
            Object::Tuple(items) => copy_values(items.as_slice()),
            _ => {
                return Vec::new();
            },
        };
        heap.retain_all(r.as_slice());
        r
    }

    /// A handle to the same tuple that does not keep it alive.
    pub fn downgrade(&self) -> (w: TupleWeak)
        ensures
            w.id == self.id,
    {
        TupleWeak { id: self.id }
    }

    /// The number of cells; 0 where the handle leads to no tuple.
    pub fn len(&self, heap: &Heap) -> (n: usize)
        ensures
            n == (match heap@.tuple(*self) {
                Some(items) => items.len(),
                None => 0,
            }),
    {
        if !heap.is_live(self.id) {
            return 0;
        }
        match &heap.slots[self.id].object {
            Object::Tuple(items) => items.len(),
            _ => 0,
        }
    }

    /// A copy of cell `index`.
    pub fn get(&self, heap: &mut Heap, index: usize) -> (r: Option<Value>)
        requires
            old(heap).wf(),
        ensures
            match old(heap)@.tuple(*self) {
                Some(items) if index < items.len() => r == Some(items[index as int])
                    && final(heap)@ == old(heap)@.retained(items[index as int]),
                _ => r is None && final(heap)@ == old(heap)@,
            },
            final(heap).wf(),
    {
        if !heap.is_live(self.id) {
            return None;
        }
        let v = match &heap.slots[self.id].object {
            Object::Tuple(items) => {
                if index < items.len() {
                    items[index]
                } else {
                    return None;
                }
            },
            _ => {
                return None;
            },
        };
        heap.retain(&v);
        Some(v)
    }

    /// Puts `value` into cell `index` and returns what the cell held. The
    /// tuple takes over the handle in `value`, and the caller the one in the
    /// result.
    pub fn set(&self, heap: &mut Heap, index: usize, value: Value) -> (r: Option<Value>)
        requires
            old(heap).wf(),
        ensures
            match old(heap)@.tuple(*self) {
                Some(items) if index < items.len() => r == Some(items[index as int])
                    && final(heap)@ == old(heap)@.with_object(
                    self.id,
                    ObjectView::Tuple(items.update(index as int, value)),
                ),
                _ => r is None && final(heap)@ == old(heap)@,
            },
            final(heap).wf(),
    {
        if !heap.is_live(self.id) {
            return None;
        }
        match &mut heap.slots[self.id].object {
            Object::Tuple(items) => {
                if index < items.len() {
                    let previous = items[index];
                    items.set(index, value);
                    assert(heap@.slots =~= old(heap)@.with_object(
                        self.id,
                        ObjectView::Tuple(old(heap)@.tuple(*self)->0.update(index as int, value)),
                    ).slots);
                    Some(previous)
                } else {
                    assert(heap@.slots =~= old(heap)@.slots);
                    None
                }
            },
            _ => {
                assert(heap@.slots =~= old(heap)@.slots);
                None
            },
        }
    }
}

impl TupleWeak {
    /// A strong handle to the tuple, if the tuple still lives. The new handle
    /// is counted.
    pub fn upgrade(&self, heap: &mut Heap) -> (r: Option<Tuple>)
        requires
            old(heap).wf(),
        ensures
            r is Some <==> old(heap)@.tuple(Tuple { id: self.id }) is Some,
            match r {
                Some(t) => t.id == self.id && final(heap)@ == old(heap)@.retained_id(self.id),
                None => final(heap)@ == old(heap)@,
            },
            final(heap).wf(),
    {
        if !heap.is_live(self.id) {
            return None;
        }
        match &heap.slots[self.id].object {
            Object::Tuple(_) => {},
            _ => {
                return None;
            },
        }
        let t = Tuple { id: self.id };
        heap.retain(&Value::Tuple(t));
        Some(t)
    }
}

/// A weak handle can be upgraded exactly while strong handles keep its
/// tuple: for a slot that holds a tuple or held one, `upgrade` gives nothing
/// if and only if the count of strong handles is zero.
pub proof fn lemma_weak_liveness(h: HeapView, w: TupleWeak)
    requires
        h.wf(),
        w.id < h.slots.len(),
        h.slots[w.id as int].object is Tuple || h.slots[w.id as int].object is Free,
    ensures
        h.tuple(Tuple { id: w.id }) is None <==> h.strong(w.id) == 0,
{
    assert(h.slots[w.id as int].wf());
}

/// Counting handles changes no container and no slot's being alive.
pub proof fn lemma_retained_all_len(h: HeapView, vs: Seq<Value>)
    ensures
        h.retained_all(vs).slots.len() == h.slots.len(),
        forall|id: usize| h.retained_all(vs).object(id) == h.object(id),
        forall|id: usize| h.retained_all(vs).live(id) == h.live(id),
    decreases vs.len(),
{
    if vs.len() > 0 {
        lemma_retained_all_len(h, vs.drop_last());
    }
}

} // verus!
