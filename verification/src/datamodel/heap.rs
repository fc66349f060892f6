//! The arena in which the shared containers live.
//!
//! A container is reached through a handle, the number of its slot. Handles
//! are copied freely, so two variables can hold the same list and see each
//! other's writes. Each slot counts the strong handles that are meant to keep
//! it alive: `retain` counts one more, `release` one less. When the count
//! falls to zero the slot is emptied and everything it held is released in
//! turn. A slot is never used again, so a handle never comes to point at a
//! different container.

use vstd::prelude::*;
use crate::bytecode::Op;
use super::value::{Buffer, Function, List, Table, Tuple, Value};

verus! {

/// What a slot holds.
pub enum Object {
    /// Nothing: the container was released, or the slot never held one.
    Free,
    Tuple(Vec<Value>),
    Table(Vec<(u64, Value)>),
    List(Vec<Value>),
    Buffer(Vec<u8>),
    Function(Tuple, Vec<Op>),
    Unknown,
}

/// A slot: what it holds and how many strong handles keep it.
pub struct Slot {
    pub strong: usize,
    pub object: Object,
}

/// The arena.
pub struct Heap {
    pub slots: Vec<Slot>,
}

/// What a slot holds, as contracts see it.
pub enum ObjectView {
    Free,
    Tuple(Seq<Value>),
    Table(Seq<(u64, Value)>),
    List(Seq<Value>),
    Buffer(Seq<u8>),
    Function(Tuple, Seq<Op>),
    Unknown,
}

/// A slot as contracts see it.
pub struct SlotView {
    pub strong: nat,
    pub object: ObjectView,
}

/// The arena as contracts see it.
pub struct HeapView {
    pub slots: Seq<SlotView>,
}

impl View for Object {
    type V = ObjectView;

    open spec fn view(&self) -> ObjectView {
        match self {
            Object::Free => ObjectView::Free,
            Object::Tuple(items) => ObjectView::Tuple(items@),
            Object::Table(items) => ObjectView::Table(items@),
            Object::List(items) => ObjectView::List(items@),
            Object::Buffer(items) => ObjectView::Buffer(items@),
            Object::Function(module, ops) => ObjectView::Function(*module, ops@),
            Object::Unknown => ObjectView::Unknown,
        }
    }
}

impl View for Slot {
    type V = SlotView;

    open spec fn view(&self) -> SlotView {
        SlotView { strong: self.strong as nat, object: self.object@ }
    }
}

impl View for Heap {
    type V = HeapView;

    open spec fn view(&self) -> HeapView {
        HeapView { slots: Seq::new(self.slots@.len(), |i: int| self.slots@[i]@) }
    }
}

/// Whether the keys of a table rise strictly.
pub open spec fn keys_rise(items: Seq<(u64, Value)>) -> bool {
    forall|i: int, j: int| 0 <= i < j < items.len() ==> items[i].0 < items[j].0
}

/// The values of a table's pairs, in the order of the pairs.
pub open spec fn values_of(items: Seq<(u64, Value)>) -> Seq<Value> {
    Seq::new(items.len(), |i: int| items[i].1)
}

/// A count with one more handle. A count that has reached the largest number
/// stays there.
pub open spec fn count_up(strong: nat) -> nat {
    if strong < usize::MAX {
        strong + 1
    } else {
        strong
    }
}

impl ObjectView {
    /// The values that the container holds, and so keeps alive.
    pub open spec fn children(self) -> Seq<Value> {
        match self {
            ObjectView::Tuple(items) => items,
            ObjectView::Table(items) => values_of(items),
            ObjectView::List(items) => items,
            ObjectView::Function(module, _) => seq![Value::Tuple(module)],
            _ => Seq::empty(),
        }
    }
}

impl SlotView {
    /// A slot holds nothing exactly when no handle keeps it, and the keys of
    /// a table rise.
    pub open spec fn wf(self) -> bool {
        &&& self.strong <= usize::MAX
        &&& self.strong == 0 <==> self.object is Free
        &&& self.object matches ObjectView::Table(items) ==> keys_rise(items)
    }
}

impl HeapView {
    pub open spec fn empty() -> HeapView {
        HeapView { slots: Seq::empty() }
    }

    pub open spec fn wf(self) -> bool {
        &&& self.slots.len() <= usize::MAX
        &&& forall|i: int| 0 <= i < self.slots.len() ==> (#[trigger] self.slots[i]).wf()
    }

    /// Whether slot `id` holds a container.
    pub open spec fn live(self, id: usize) -> bool {
        id < self.slots.len() && self.slots[id as int].strong > 0
    }

    /// What slot `id` holds; nothing where there is no such slot.
    pub open spec fn object(self, id: usize) -> ObjectView {
        if self.live(id) {
            self.slots[id as int].object
        } else {
            ObjectView::Free
        }
    }

    /// The cells of a tuple, if the handle leads to one.
    pub open spec fn tuple(self, t: Tuple) -> Option<Seq<Value>> {
        match self.object(t.id) {
            ObjectView::Tuple(items) => Some(items),
            _ => None,
        }
    }

    /// The pairs of a table, if the handle leads to one.
    pub open spec fn table(self, t: Table) -> Option<Seq<(u64, Value)>> {
        match self.object(t.id) {
            ObjectView::Table(items) => Some(items),
            _ => None,
        }
    }

    /// The items of a list, if the handle leads to one.
    pub open spec fn list(self, t: List) -> Option<Seq<Value>> {
        match self.object(t.id) {
            ObjectView::List(items) => Some(items),
            _ => None,
        }
    }

    /// The bytes of a buffer, if the handle leads to one.
    pub open spec fn buffer(self, t: Buffer) -> Option<Seq<u8>> {
        match self.object(t.id) {
            ObjectView::Buffer(items) => Some(items),
            _ => None,
        }
    }

    /// The module and the instructions of a function, if the handle leads to
    /// one.
    pub open spec fn function(self, t: Function) -> Option<(Tuple, Seq<Op>)> {
        match self.object(t.id) {
            ObjectView::Function(module, ops) => Some((module, ops)),
            _ => None,
        }
    }

    /// How many strong handles keep slot `id`.
    pub open spec fn strong(self, id: usize) -> nat {
        if id < self.slots.len() {
            self.slots[id as int].strong
        } else {
            0
        }
    }

    /// The number by which two handles to the same container are told to be
    /// the same: never 0 for a container that lives, and 0 for one that does
    /// not.
    pub open spec fn identity(self, id: usize) -> usize {
        if self.live(id) {
            (id + 1) as usize
        } else {
            0
        }
    }

    /// The arena with a new container, kept by one handle.
    pub open spec fn allocated(self, object: ObjectView) -> HeapView {
        HeapView { slots: self.slots.push(SlotView { strong: 1, object }) }
    }

    /// The arena with another container in slot `id`.
    pub open spec fn with_object(self, id: usize, object: ObjectView) -> HeapView {
        HeapView {
            slots: self.slots.update(
                id as int,
                SlotView { strong: self.slots[id as int].strong, object },
            ),
        }
    }

    /// The arena with another count for slot `id`.
    pub open spec fn with_strong(self, id: usize, strong: nat) -> HeapView {
        HeapView {
            slots: self.slots.update(
                id as int,
                SlotView { strong, object: self.slots[id as int].object },
            ),
        }
    }

    /// The arena with slot `id` emptied.
    pub open spec fn freed(self, id: usize) -> HeapView {
        HeapView {
            slots: self.slots.update(id as int, SlotView { strong: 0, object: ObjectView::Free }),
        }
    }

    /// The arena after one more handle to slot `id` is counted.
    pub open spec fn retained_id(self, id: usize) -> HeapView {
        if self.live(id) {
            self.with_strong(id, count_up(self.slots[id as int].strong))
        } else {
            self
        }
    }

    /// The arena after one more handle like `v` is counted. Only a strong
    /// handle to a living container counts.
    pub open spec fn retained(self, v: Value) -> HeapView {
        match v.strong_id() {
            Some(id) => self.retained_id(id),
            None => self,
        }
    }

    /// The arena after a handle like each of `vs` is counted, first to last.
    pub open spec fn retained_all(self, vs: Seq<Value>) -> HeapView
        decreases vs.len(),
    {
        if vs.len() == 0 {
            self
        } else {
            self.retained_all(vs.drop_last()).retained(vs.last())
        }
    }

    /// How many slots hold a container.
    pub open spec fn live_count(self) -> nat
        decreases self.slots.len(),
    {
        if self.slots.len() == 0 {
            0
        } else {
            let rest = HeapView { slots: self.slots.drop_last() }.live_count();
            if self.slots.last().strong > 0 {
                rest + 1
            } else {
                rest
            }
        }
    }

    /// The arena after the handles in `pending` are given up, the last of
    /// them first.
    ///
    /// A handle that is given up counts one less for its slot. Where that was
    /// the last handle, the slot is emptied and the values that it held are
    /// given up next, the last of them first. A count that has reached the
    /// largest number is never lowered.
    pub open spec fn released_all(self, pending: Seq<Value>) -> HeapView
        decreases self.live_count(), pending.len(),
    {
        if pending.len() == 0 {
            self
        } else {
            let rest = pending.drop_last();
            match pending.last().strong_id() {
                Some(id) => if self.live(id) {
                    let strong = self.slots[id as int].strong;
                    if strong >= usize::MAX {
                        self.released_all(rest)
                    } else if strong > 1 {
                        proof {
                            lemma_live_count_update(
                                self,
                                id,
                                SlotView {
                                    strong: (strong - 1) as nat,
                                    object: self.slots[id as int].object,
                                },
                            );
                        }
                        self.with_strong(id, (strong - 1) as nat).released_all(rest)
                    } else {
                        proof {
                            lemma_live_count_update(
                                self,
                                id,
                                SlotView { strong: 0, object: ObjectView::Free },
                            );
                        }
                        self.freed(id).released_all(rest + self.slots[id as int].object.children())
                    }
                } else {
                    self.released_all(rest)
                },
                None => self.released_all(rest),
            }
        }
    }

    /// The arena after one handle like `v` is given up.
    pub open spec fn released(self, v: Value) -> HeapView {
        self.released_all(seq![v])
    }
}

/// Replacing a slot changes the number of living slots by what the slot
/// itself changes.
pub proof fn lemma_live_count_update(h: HeapView, id: usize, slot: SlotView)
    requires
        id < h.slots.len(),
    ensures
        (HeapView { slots: h.slots.update(id as int, slot) }).live_count() + (if h.slots[id as int].strong
            > 0 {
            1nat
        } else {
            0nat
        }) == h.live_count() + (if slot.strong > 0 {
            1nat
        } else {
            0nat
        }),
    decreases h.slots.len(),
{
    let g = HeapView { slots: h.slots.update(id as int, slot) };
    let h1 = HeapView { slots: h.slots.drop_last() };
    let g1 = HeapView { slots: g.slots.drop_last() };
    if id == h.slots.len() - 1 {
        assert(g1.slots =~= h1.slots);
    } else {
        lemma_live_count_update(h1, id, slot);
        assert(g1.slots =~= h1.slots.update(id as int, slot));
    }
}

/// Counting a handle changes no container and no slot's being alive.
pub proof fn lemma_retained_keeps(h: HeapView, v: Value)
    ensures
        h.retained(v).slots.len() == h.slots.len(),
        forall|id: usize| h.retained(v).object(id) == h.object(id),
        forall|id: usize| h.retained(v).live(id) == h.live(id),
        forall|t: Tuple| h.retained(v).tuple(t) == h.tuple(t),
        forall|t: List| h.retained(v).list(t) == h.list(t),
        forall|t: Table| h.retained(v).table(t) == h.table(t),
        forall|t: Buffer| h.retained(v).buffer(t) == h.buffer(t),
{
}

/// Tests whether the keys of the pairs rise strictly.
pub fn rising(items: &Vec<(u64, Value)>) -> (r: bool)
    ensures
        r == keys_rise(items@),
{
    let mut i: usize = 1;
    while i < items.len()
        invariant
            1 <= i,
            forall|a: int, b: int| 0 <= a < b < i && b < items@.len() ==> items@[a].0 < items@[b].0,
        decreases items.len() - i,
    {
        if items[i - 1].0 >= items[i].0 {
            return false;
        }
        assert forall|a: int, b: int| 0 <= a < b < i + 1 && b < items@.len() implies items@[a].0
            < items@[b].0 by {
            if b == i && a < i - 1 {
                assert(items@[a].0 < items@[i - 1].0);
            }
        }
        i += 1;
    }
    true
}

impl Heap {
    /// Whether the arena is in order: see [`SlotView::wf`].
    pub open spec fn wf(&self) -> bool {
        self@.wf()
    }

    /// An arena that holds nothing.
    pub fn new() -> (heap: Heap)
        ensures
            heap@ == HeapView::empty(),
            heap.wf(),
    {
        let heap = Heap { slots: Vec::new() };
        assert(heap@.slots =~= Seq::empty());
        heap
    }

    /// The sequences in the arena are no longer than a machine number can
    /// say.
    pub proof fn lemma_lengths(&self)
        ensures
            forall|id: usize|
                match #[trigger] self@.object(id) {
                    ObjectView::Tuple(items) => items.len() <= usize::MAX,
                    ObjectView::Table(items) => items.len() <= usize::MAX,
                    ObjectView::List(items) => items.len() <= usize::MAX,
                    ObjectView::Buffer(items) => items.len() <= usize::MAX,
                    ObjectView::Function(_, ops) => ops.len() <= usize::MAX,
                    _ => true,
                },
    {
        assert forall|id: usize|
            match #[trigger] self@.object(id) {
                ObjectView::Tuple(items) => items.len() <= usize::MAX,
                ObjectView::Table(items) => items.len() <= usize::MAX,
                ObjectView::List(items) => items.len() <= usize::MAX,
                ObjectView::Buffer(items) => items.len() <= usize::MAX,
                ObjectView::Function(_, ops) => ops.len() <= usize::MAX,
                _ => true,
            } by {
            if self@.live(id) {
                match self.slots@[id as int].object {
                    Object::Tuple(items) => {
                        assert(items.len() <= usize::MAX);
                    },
                    Object::Table(items) => {
                        assert(items.len() <= usize::MAX);
                    },
                    Object::List(items) => {
                        assert(items.len() <= usize::MAX);
                    },
                    Object::Buffer(items) => {
                        assert(items.len() <= usize::MAX);
                    },
                    Object::Function(_, ops) => {
                        assert(ops.len() <= usize::MAX);
                    },
                    _ => {},
                }
            }
        }
    }

    /// Tests whether the arena is in order.
    pub fn in_order(&self) -> (r: bool)
        ensures
            r == self.wf(),
    {
        let mut i: usize = 0;
        while i < self.slots.len()
            invariant
                i <= self.slots.len(),
                forall|k: int| 0 <= k < i ==> (#[trigger] self@.slots[k]).wf(),
            decreases self.slots.len() - i,
        {
            let slot = &self.slots[i];
            let in_order = match &slot.object {
                Object::Free => slot.strong == 0,
                Object::Table(items) => slot.strong > 0 && rising(items),
                _ => slot.strong > 0,
            };
            if !in_order {
                assert(!self@.slots[i as int].wf());
                return false;
            }
            i += 1;
        }
        true
    }

    /// Whether slot `id` holds a container.
    pub fn is_live(&self, id: usize) -> (r: bool)
        ensures
            r == self@.live(id),
    {
        id < self.slots.len() && self.slots[id].strong > 0
    }

    /// How many strong handles keep slot `id`.
    pub fn strong_count(&self, id: usize) -> (r: usize)
        ensures
            r == self@.strong(id),
    {
        if id < self.slots.len() {
            self.slots[id].strong
        } else {
            0
        }
    }

    /// The identity of the container in slot `id`.
    pub fn identity_of(&self, id: usize) -> (r: usize)
        ensures
            r == self@.identity(id),
            self@.live(id) ==> r == id + 1,
    {
        if self.is_live(id) {
            assert(self.slots.len() <= usize::MAX);
            id + 1
        } else {
            0
        }
    }

    /// Puts a container into a new slot, kept by one handle, and returns the
    /// number of the slot.
    pub fn allocate(&mut self, object: Object) -> (id: usize)
        requires
            old(self).wf(),
            !(object is Free),
            object@ matches ObjectView::Table(items) ==> keys_rise(items),
        ensures
            id == old(self)@.slots.len(),
            final(self)@ == old(self)@.allocated(object@),
            final(self).wf(),
    {
        let id = self.slots.len();
        self.slots.push(Slot { strong: 1, object });
        assert(self@.slots =~= old(self)@.allocated(object@).slots);
        assert(self.slots.len() <= usize::MAX);
        id
    }

    /// Counts one more strong handle for the container that `v` leads to.
    pub fn retain(&mut self, v: &Value)
        requires
            old(self).wf(),
        ensures
            final(self)@ == old(self)@.retained(*v),
            final(self).wf(),
    {
        match v.get_strong_id() {
            Some(id) => {
                if id < self.slots.len() && self.slots[id].strong > 0 {
                    if self.slots[id].strong < usize::MAX {
                        self.slots[id].strong += 1;
                    }
                    assert(self@.slots =~= old(self)@.retained(*v).slots);
                } else {
                    assert(self@.slots =~= old(self)@.slots);
                }
            },
            None => {
                assert(self@.slots =~= old(self)@.slots);
            },
        }
    }

    /// Counts one more strong handle for each of the values.
    pub fn retain_all(&mut self, vs: &[Value])
        requires
            old(self).wf(),
        ensures
            final(self)@ == old(self)@.retained_all(vs@),
            final(self).wf(),
    {
        let mut i: usize = 0;
        assert(vs@.subrange(0, 0) =~= Seq::<Value>::empty());
        while i < vs.len()
            invariant
                i <= vs.len(),
                self.wf(),
                self@ == old(self)@.retained_all(vs@.subrange(0, i as int)),
            decreases vs.len() - i,
        {
            self.retain(&vs[i]);
            proof {
                let sub = vs@.subrange(0, i + 1);
                assert(sub.drop_last() =~= vs@.subrange(0, i as int));
                assert(sub.last() == vs@[i as int]);
            }
            i += 1;
        }
        assert(vs@.subrange(0, vs@.len() as int) =~= vs@);
    }

    /// Gives up one strong handle. Where it was the last to its container,
    /// the container goes, and with it the handles that it held.
    pub fn release(&mut self, v: Value)
        requires
            old(self).wf(),
        ensures
            final(self)@ == old(self)@.released(v),
            final(self).wf(),
    {
        let mut pending: Vec<Value> = Vec::new();
        pending.push(v);
        self.release_all(pending);
    }

    /// Gives up the handles in `pending`, the last of them first.
    pub fn release_all(&mut self, pending: Vec<Value>)
        requires
            old(self).wf(),
        ensures
            final(self)@ == old(self)@.released_all(pending@),
            final(self).wf(),
    {
        let mut pending = pending;
        let ghost start = pending@;
        while pending.len() > 0
            invariant
                self.wf(),
                self@.released_all(pending@) == old(self)@.released_all(start),
            decreases self@.live_count(), pending.len(),
        {
            let ghost before = self@;
            let ghost queue = pending@;
            let v = pending.pop().unwrap();
            assert(pending@ =~= queue.drop_last());
            match v.get_strong_id() {
                Some(id) => {
                    if id < self.slots.len() && self.slots[id].strong > 0 {
                        let strong = self.slots[id].strong;
                        if strong == usize::MAX {
                            assert(self@.slots =~= before.slots);
                        } else if strong > 1 {
                            self.slots[id].strong = strong - 1;
                            proof {
                                assert(self@.slots =~= before.with_strong(
                                    id,
                                    (strong - 1) as nat,
                                ).slots);
                                lemma_live_count_update(
                                    before,
                                    id,
                                    SlotView {
                                        strong: (strong - 1) as nat,
                                        object: before.slots[id as int].object,
                                    },
                                );
                            }
                        } else {
                            let mut object = Object::Free;
                            std::mem::swap(&mut object, &mut self.slots[id].object);
                            self.slots[id].strong = 0;
                            proof {
                                assert(self@.slots =~= before.freed(id).slots);
                                lemma_live_count_update(
                                    before,
                                    id,
                                    SlotView { strong: 0, object: ObjectView::Free },
                                );
                            }
                            match object {
                                Object::Tuple(items) => {
                                    let mut items = items;
                                    pending.append(&mut items);
                                },
                                Object::List(items) => {
                                    let mut items = items;
                                    pending.append(&mut items);
                                },
                                Object::Table(items) => {
                                    let ghost rest = pending@;
                                    let mut i: usize = 0;
                                    while i < items.len()
                                        invariant
                                            i <= items.len(),
                                            pending@ == rest + values_of(items@).subrange(
                                                0,
                                                i as int,
                                            ),
                                        decreases items.len() - i,
                                    {
                                        pending.push(items[i].1);
                                        assert(pending@ =~= rest + values_of(items@).subrange(
                                            0,
                                            i + 1,
                                        ));
                                        i += 1;
                                    }
                                    assert(values_of(items@).subrange(0, items@.len() as int)
                                        =~= values_of(items@));
                                },
                                Object::Function(module, _) => {
                                    pending.push(Value::Tuple(module));
                                    assert(pending@ =~= queue.drop_last() + seq![
                                        Value::Tuple(module),
                                    ]);
                                },
                                _ => {
                                    assert(pending@ =~= queue.drop_last() + Seq::<Value>::empty());
                                },
                            }
                        }
                    } else {
                        assert(self@.slots =~= before.slots);
                    }
                },
                None => {
                    assert(self@.slots =~= before.slots);
                },
            }
        }
    }
}

} // verus!
