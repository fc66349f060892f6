use vstd::prelude::*;
use super::heap::{Heap, Object, ObjectView};
use super::tuple::{copy_values, lemma_retained_all_len, nils};
use super::value::{List, Value};

verus! {

impl List {
    /// Makes a list of the given items. The list takes over the handles in
    /// them.
    pub fn new(heap: &mut Heap, v: Vec<Value>) -> (l: List)
        requires
            old(heap).wf(),
        ensures
            l.id == old(heap)@.slots.len(),
            final(heap)@ == old(heap)@.allocated(ObjectView::List(v@)),
            final(heap).wf(),
    {
        let id = heap.allocate(Object::List(v));
        List { id }
    }

    /// Makes a list without items.
    pub fn empty(heap: &mut Heap) -> (l: List)
        requires
            old(heap).wf(),
        ensures
            l.id == old(heap)@.slots.len(),
            final(heap)@ == old(heap)@.allocated(ObjectView::List(Seq::empty())),
            final(heap).wf(),
    {
        List::new(heap, Vec::new())
    }

    /// Whether the handle leads to a list.
    pub fn is_valid(&self, heap: &Heap) -> (r: bool)
        ensures
            r == heap@.list(*self) is Some,
    {
        if heap.is_live(self.id) {
            match &heap.slots[self.id].object {
                Object::List(_) => true,
                _ => false,
            }
        } else {
            false
        }
    }

    /// The items, borrowed; none where the handle leads to no list.
    pub fn as_slice<'a>(&self, heap: &'a Heap) -> (r: &'a [Value])
        ensures
            r@ == (match heap@.list(*self) {
                Some(items) => items,
                None => Seq::empty(),
            }),
    {
        if heap.is_live(self.id) {
            match &heap.slots[self.id].object {
                Object::List(items) => {
                    return items.as_slice();
                },
                _ => {},
            }
        }
        let none: &'a [Value] = &[];
        assert(none@ =~= Seq::empty());
        none
    }

    /// The number of items; 0 where the handle leads to no list.
    pub fn len(&self, heap: &Heap) -> (n: usize)
        ensures
            n == (match heap@.list(*self) {
                Some(items) => items.len(),
                None => 0,
            }),
    {
        self.as_slice(heap).len()
    }

    /// Makes the list `len` items long: a longer list loses its tail, whose
    /// handles are given up; a shorter one is filled up with nothing.
    pub fn resize(&self, heap: &mut Heap, len: usize)
        requires
            old(heap).wf(),
        ensures
            final(heap)@ == (match old(heap)@.list(*self) {
                Some(items) => if len <= items.len() {
                    old(heap)@.with_object(
                        self.id,
                        ObjectView::List(items.subrange(0, len as int)),
                    ).released_all(items.subrange(len as int, items.len() as int))
                } else {
                    old(heap)@.with_object(
                        self.id,
                        ObjectView::List(items + nils((len - items.len()) as nat)),
                    )
                },
                None => old(heap)@,
            }),
            final(heap).wf(),
    {
        if !heap.is_live(self.id) {
            return ;
        }
        let tail: Vec<Value> = match &mut heap.slots[self.id].object {
            Object::List(items) => {
                let ghost before = items@;
                if len <= items.len() {
                    let tail = items.split_off(len);
                    assert(heap@.slots =~= old(heap)@.with_object(
                        self.id,
                        ObjectView::List(before.subrange(0, len as int)),
                    ).slots);
                    tail
                } else {
                    while items.len() < len
                        invariant
                            before.len() <= items@.len() <= len,
                            items@ == before + nils((items@.len() - before.len()) as nat),
                        decreases len - items.len(),
                    {
                        let ghost prev = items@;
                        items.push(Value::Nil);
                        assert(items@ =~= before + nils((items@.len() - before.len()) as nat));
                    }
                    assert(heap@.slots =~= old(heap)@.with_object(
                        self.id,
                        ObjectView::List(before + nils((len - before.len()) as nat)),
                    ).slots);
                    return ;
                }
            },
            _ => {
                assert(heap@.slots =~= old(heap)@.slots);
                return ;
            },
        };
        heap.release_all(tail);
    }

    /// A copy of item `index`.
    pub fn get(&self, heap: &mut Heap, index: usize) -> (r: Option<Value>)
        requires
            old(heap).wf(),
        ensures
            match old(heap)@.list(*self) {
                Some(items) if index < items.len() => r == Some(items[index as int])
                    && final(heap)@ == old(heap)@.retained(items[index as int]),
                _ => r is None && final(heap)@ == old(heap)@,
            },
            final(heap).wf(),
    {
        let items = self.as_slice(heap);
        if index < items.len() {
            let v = items[index];
            heap.retain(&v);
            Some(v)
        } else {
            None
        }
    }

    /// Puts `value` in the place of item `index` and returns what was there.
    /// The list takes over the handle in `value`, and the caller the one in
    /// the result.
    pub fn set(&self, heap: &mut Heap, index: usize, value: Value) -> (r: Option<Value>)
        requires
            old(heap).wf(),
        ensures
            match old(heap)@.list(*self) {
                Some(items) if index < items.len() => r == Some(items[index as int])
                    && final(heap)@ == old(heap)@.with_object(
                    self.id,
                    ObjectView::List(items.update(index as int, value)),
                ),
                _ => r is None && final(heap)@ == old(heap)@,
            },
            final(heap).wf(),
    {
        if !heap.is_live(self.id) {
            return None;
        }
        match &mut heap.slots[self.id].object {
            Object::List(items) => {
                if index < items.len() {
                    let previous = items[index];
                    items.set(index, value);
                    assert(heap@.slots =~= old(heap)@.with_object(
                        self.id,
                        ObjectView::List(old(heap)@.list(*self)->0.update(index as int, value)),
                    ).slots);
                    Some(previous)
                } else {
                    assert(heap@.slots =~= old(heap)@.slots);
                    None
                }
            },
            _ => {
                assert(heap@.slots =~= old(heap)@.slots);
                None
            },
        }
    }

    /// A new list of copies of the items from `a` up to, not including, `b`.
    /// Nothing where this is no range of the list.
    pub fn get_slice(&self, heap: &mut Heap, a: usize, b: usize) -> (r: Option<List>)
        requires
            old(heap).wf(),
        ensures
            match old(heap)@.list(*self) {
                Some(items) if a <= b <= items.len() => r == Some(
                    List { id: old(heap)@.slots.len() as usize },
                ) && final(heap)@ == old(heap)@.retained_all(
                    items.subrange(a as int, b as int),
                ).allocated(ObjectView::List(items.subrange(a as int, b as int))),
                _ => r is None && final(heap)@ == old(heap)@,
            },
            final(heap).wf(),
    {
        let items = self.as_slice(heap);
        if self.is_valid(heap) && a <= b && b <= items.len() {
            let v = copy_values(vstd::slice::slice_subrange(items, a, b));
            heap.retain_all(v.as_slice());
            proof {
                lemma_retained_all_len(old(heap)@, v@);
            }
            Some(List::new(heap, v))
        } else {
            None
        }
    }

    /// Appends an item. The list takes over the handle in it.
    pub fn push(&self, heap: &mut Heap, val: Value)
        requires
            old(heap).wf(),
        ensures
            final(heap)@ == (match old(heap)@.list(*self) {
                Some(items) => old(heap)@.with_object(self.id, ObjectView::List(items.push(val))),
                None => old(heap)@,
            }),
            final(heap).wf(),
    {
        if !heap.is_live(self.id) {
            return ;
        }
        match &mut heap.slots[self.id].object {
            Object::List(items) => {
                items.push(val);
                assert(heap@.slots =~= old(heap)@.with_object(
                    self.id,
                    ObjectView::List(old(heap)@.list(*self)->0.push(val)),
                ).slots);
            },
            _ => {
                assert(heap@.slots =~= old(heap)@.slots);
            },
        }
    }

    /// Takes the last item off the list. The caller takes over its handle.
    pub fn pop(&self, heap: &mut Heap) -> (r: Option<Value>)
        requires
            old(heap).wf(),
        ensures
            match old(heap)@.list(*self) {
                Some(items) if items.len() > 0 => r == Some(items.last()) && final(heap)@ == old(
                    heap,
                )@.with_object(self.id, ObjectView::List(items.drop_last())),
                _ => r is None && final(heap)@ == old(heap)@,
            },
            final(heap).wf(),
    {
        if !heap.is_live(self.id) {
            return None;
        }
        match &mut heap.slots[self.id].object {
            Object::List(items) => {
                let r = items.pop();
                assert(heap@.slots =~= (if r is Some {
                    old(heap)@.with_object(
                        self.id,
                        ObjectView::List(old(heap)@.list(*self)->0.drop_last()),
                    )
                } else {
                    old(heap)@
                }).slots);
                r
            },
            _ => {
                assert(heap@.slots =~= old(heap)@.slots);
                None
            },
        }
    }

    /// Appends the items of `t`. The list takes over the handles in them.
    pub fn append(&self, heap: &mut Heap, t: Vec<Value>)
        requires
            old(heap).wf(),
        ensures
            final(heap)@ == (match old(heap)@.list(*self) {
                Some(items) => old(heap)@.with_object(self.id, ObjectView::List(items + t@)),
                None => old(heap)@,
            }),
            final(heap).wf(),
    {
        if !heap.is_live(self.id) {
            return ;
        }
        let ghost added = t@;
        let mut t = t;
        match &mut heap.slots[self.id].object {
            Object::List(items) => {
                items.append(&mut t);
                assert(heap@.slots =~= old(heap)@.with_object(
                    self.id,
                    ObjectView::List(old(heap)@.list(*self)->0 + added),
                ).slots);
            },
            _ => {
                assert(heap@.slots =~= old(heap)@.slots);
            },
        }
    }
}

} // verus!
