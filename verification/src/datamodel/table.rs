use vstd::prelude::*;
use super::heap::{keys_rise, Heap, HeapView, Object, ObjectView};
use super::tuple::lemma_retained_all_len;
use super::value::{Table, Tuple, Value};

verus! {

/// Where the key stands among the pairs, if it does.
pub open spec fn find(items: Seq<(u64, Value)>, key: u64) -> Option<int>
    decreases items.len(),
{
    if items.len() == 0 {
        None
    } else if items.last().0 == key {
        Some(items.len() - 1)
    } else {
        find(items.drop_last(), key)
    }
}

/// How many of the pairs have a key below `key`: where the keys rise, the
/// place at which `key` stands or would have to be put.
pub open spec fn rank(items: Seq<(u64, Value)>, key: u64) -> int
    decreases items.len(),
{
    if items.len() == 0 {
        0
    } else if items.last().0 < key {
        rank(items.drop_last(), key) + 1
    } else {
        rank(items.drop_last(), key)
    }
}

/// The value that stands under the key.
pub open spec fn lookup(items: Seq<(u64, Value)>, key: u64) -> Option<Value> {
    match find(items, key) {
        Some(i) => Some(items[i].1),
        None => None,
    }
}

/// The pairs with `value` under `key`, whether the key was there or not.
pub open spec fn put(items: Seq<(u64, Value)>, key: u64, value: Value) -> Seq<(u64, Value)> {
    match find(items, key) {
        Some(i) => items.update(i, (key, value)),
        None => items.insert(rank(items, key), (key, value)),
    }
}

/// The pairs after `value` was set under `key`: setting nothing removes the
/// key, setting anything else puts it.
pub open spec fn assigned(items: Seq<(u64, Value)>, key: u64, value: Value) -> Seq<(u64, Value)> {
    if value is Nil {
        match find(items, key) {
            Some(i) => items.remove(i),
            None => items,
        }
    } else {
        put(items, key, value)
    }
}

/// A table under construction: its pairs, and the values that a later pair
/// with the same key has replaced.
pub struct Built {
    pub items: Seq<(u64, Value)>,
    pub shadowed: Seq<Value>,
}

/// The table that the pairs make when they are put one after the other: the
/// keys rise, and of two pairs with one key the later one stays.
pub open spec fn built(pairs: Seq<(u64, Value)>) -> Built
    decreases pairs.len(),
{
    if pairs.len() == 0 {
        Built { items: Seq::empty(), shadowed: Seq::empty() }
    } else {
        let b = built(pairs.drop_last());
        Built {
            items: put(b.items, pairs.last().0, pairs.last().1),
            shadowed: match find(b.items, pairs.last().0) {
                Some(i) => b.shadowed.push(b.items[i].1),
                None => b.shadowed,
            },
        }
    }
}

/// The key of a table as the integer that programs see: the same 64 bits,
/// read with a sign.
pub open spec fn key_integer(key: u64) -> i64 {
    if key <= i64::MAX {
        key as i64
    } else {
        (key - 0x1_0000_0000_0000_0000) as i64
    }
}

/// The integer of a program as the key of a table: the same 64 bits, read
/// without a sign.
pub open spec fn integer_key(i: i64) -> u64 {
    if i >= 0 {
        i as u64
    } else {
        (i + 0x1_0000_0000_0000_0000) as u64
    }
}

pub fn to_integer(key: u64) -> (i: i64)
    ensures
        i == key_integer(key),
{
    let i = key as i64;
    assert(key <= 0x7fff_ffff_ffff_ffff ==> i == key) by (bit_vector)
        requires
            i == key as i64,
    ;
    assert(key > 0x7fff_ffff_ffff_ffff ==> i == key - 0x1_0000_0000_0000_0000) by (bit_vector)
        requires
            i == key as i64,
    ;
    i
}

pub fn to_key(i: i64) -> (key: u64)
    ensures
        key == integer_key(i),
{
    let key = i as u64;
    assert(i >= 0 ==> key == i) by (bit_vector)
        requires
            key == i as u64,
    ;
    assert(i < 0 ==> key == i + 0x1_0000_0000_0000_0000) by (bit_vector)
        requires
            key == i as u64,
    ;
    key
}

/// The tuple that stands for one pair of a table in a list.
pub open spec fn pair_cells(pair: (u64, Value)) -> Seq<Value> {
    seq![Value::Integer(key_integer(pair.0)), pair.1]
}

/// The arena after each pair of a table was made a tuple of the key and a
/// copy of the value.
pub open spec fn listed(h: HeapView, items: Seq<(u64, Value)>) -> HeapView
    decreases items.len(),
{
    if items.len() == 0 {
        h
    } else {
        listed(h, items.drop_last()).retained(items.last().1).allocated(
            ObjectView::Tuple(pair_cells(items.last())),
        )
    }
}

/// Where the keys rise, a key stands at one place at most, and the rank of a
/// key is that place.
pub proof fn lemma_find_at(items: Seq<(u64, Value)>, key: u64, i: int)
    requires
        keys_rise(items),
        0 <= i < items.len(),
        items[i].0 == key,
    ensures
        find(items, key) == Some(i),
        rank(items, key) == i,
    decreases items.len(),
{
    if i == items.len() - 1 {
        lemma_rank_below(items.drop_last(), key);
    } else {
        lemma_find_at(items.drop_last(), key, i);
    }
}

/// Where every key is below `key`, the rank of `key` is the number of pairs
/// and `key` is not found.
pub proof fn lemma_rank_below(items: Seq<(u64, Value)>, key: u64)
    requires
        forall|j: int| 0 <= j < items.len() ==> items[j].0 < key,
    ensures
        rank(items, key) == items.len(),
        find(items, key) is None,
    decreases items.len(),
{
    if items.len() > 0 {
        lemma_rank_below(items.drop_last(), key);
    }
}

/// Where the keys below place `i` are below `key` and the others above it,
/// `key` is not found and its rank is `i`.
pub proof fn lemma_find_none(items: Seq<(u64, Value)>, key: u64, i: int)
    requires
        0 <= i <= items.len(),
        forall|j: int| 0 <= j < i ==> items[j].0 < key,
        forall|j: int| i <= j < items.len() ==> items[j].0 > key,
    ensures
        find(items, key) is None,
        rank(items, key) == i,
    decreases items.len(),
{
    if items.len() > 0 {
        if i == items.len() {
            lemma_rank_below(items, key);
        } else {
            lemma_find_none(items.drop_last(), key, i);
        }
    }
}

/// What `find` finds is a place of the key.
pub proof fn lemma_find_some(items: Seq<(u64, Value)>, key: u64)
    ensures
        find(items, key) matches Some(i) ==> 0 <= i < items.len() && items[i].0 == key,
        find(items, key) is None ==> forall|j: int| 0 <= j < items.len() ==> items[j].0 != key,
        0 <= rank(items, key) <= items.len(),
    decreases items.len(),
{
    if items.len() > 0 {
        lemma_find_some(items.drop_last(), key);
        if find(items, key) is None {
            assert forall|j: int| 0 <= j < items.len() implies items[j].0 != key by {
                if j < items.len() - 1 {
                    assert(items.drop_last()[j] == items[j]);
                }
            }
        }
    }
}

/// Where the keys rise, the pairs below the rank of a key have keys below it
/// and the others have not.
pub proof fn lemma_rank_splits(items: Seq<(u64, Value)>, key: u64)
    requires
        keys_rise(items),
    ensures
        0 <= rank(items, key) <= items.len(),
        forall|j: int| 0 <= j < rank(items, key) ==> items[j].0 < key,
        forall|j: int| rank(items, key) <= j < items.len() ==> items[j].0 >= key,
    decreases items.len(),
{
    if items.len() > 0 {
        let init = items.drop_last();
        assert forall|a: int, b: int| 0 <= a < b < init.len() implies init[a].0 < init[b].0 by {
            assert(items[a].0 < items[b].0);
        }
        lemma_rank_splits(init, key);
        if items.last().0 < key {
            assert forall|j: int| 0 <= j < init.len() implies init[j].0 < key by {
                assert(items[j].0 < items[items.len() - 1].0);
            }
            lemma_rank_below(init, key);
        } else {
            assert forall|j: int| 0 <= j < rank(items, key) implies items[j].0 < key by {
                assert(init[j] == items[j]);
            }
            assert forall|j: int| rank(items, key) <= j < items.len() implies items[j].0
                >= key by {
                if j < items.len() - 1 {
                    assert(init[j] == items[j]);
                }
            }
        }
    }
}

/// Putting and setting keep the keys rising.
pub proof fn lemma_assigned_rises(items: Seq<(u64, Value)>, key: u64, value: Value)
    requires
        keys_rise(items),
    ensures
        keys_rise(put(items, key, value)),
        keys_rise(assigned(items, key, value)),
{
    lemma_find_some(items, key);
    lemma_rank_splits(items, key);
    let p = put(items, key, value);
    match find(items, key) {
        Some(i) => {
            assert forall|a: int, b: int| 0 <= a < b < p.len() implies p[a].0 < p[b].0 by {
                assert(items[a].0 < items[b].0);
            }
            let r = items.remove(i);
            assert forall|a: int, b: int| 0 <= a < b < r.len() implies r[a].0 < r[b].0 by {
                let a0 = if a < i { a } else { a + 1 };
                let b0 = if b < i { b } else { b + 1 };
                assert(items[a0].0 < items[b0].0);
            }
        },
        None => {
            let at = rank(items, key);
            assert forall|a: int, b: int| 0 <= a < b < p.len() implies p[a].0 < p[b].0 by {
                let a0 = if a < at { a } else { a - 1 };
                let b0 = if b < at { b } else { b - 1 };
                if a != at && b != at {
                    assert(items[a0].0 < items[b0].0);
                }
            }
        },
    }
}

/// Where the keys rise, the key at a place is found at that place and
/// nowhere else.
pub proof fn lemma_find_is_place(items: Seq<(u64, Value)>, key: u64)
    requires
        keys_rise(items),
    ensures
        forall|i: int| 0 <= i < items.len() && items[i].0 == key ==> find(items, key) == Some(i),
{
    assert forall|i: int| 0 <= i < items.len() && items[i].0 == key implies find(items, key)
        == Some(i) by {
        lemma_find_at(items, key, i);
    }
}

/// What a table holds after a value was put under a key: that value under
/// that key, and under every other key what it held before.
pub proof fn lemma_put_lookup(items: Seq<(u64, Value)>, key: u64, value: Value, other: u64)
    requires
        keys_rise(items),
    ensures
        lookup(put(items, key, value), other) == (if other == key {
            Some(value)
        } else {
            lookup(items, other)
        }),
{
    let p = put(items, key, value);
    lemma_assigned_rises(items, key, value);
    lemma_find_some(items, key);
    lemma_find_some(items, other);
    lemma_find_some(p, other);
    lemma_rank_splits(items, key);
    lemma_find_is_place(items, other);
    lemma_find_is_place(p, other);
    match find(items, key) {
        Some(i) => {
            if other == key {
                assert(p[i].0 == other);
            } else {
                match find(items, other) {
                    Some(j) => {
                        assert(p[j] == items[j]);
                    },
                    None => {
                        if find(p, other) is Some {
                            let j = find(p, other)->0;
                            assert(items[j].0 == other);
                        }
                    },
                }
            }
        },
        None => {
            let at = rank(items, key);
            if other == key {
                assert(p[at].0 == other);
            } else {
                match find(items, other) {
                    Some(j) => {
                        let j2 = if j < at { j } else { j + 1 };
                        assert(p[j2] == items[j]);
                    },
                    None => {
                        if find(p, other) is Some {
                            let j = find(p, other)->0;
                            let j0 = if j < at { j } else { j - 1 };
                            assert(p[j] == items[j0]);
                        }
                    },
                }
            }
        },
    }
}

/// What a table holds after a value was set under a key. Setting nothing
/// removes the key; setting anything else puts the value under it; every
/// other key holds what it held before.
pub proof fn lemma_assigned_lookup(items: Seq<(u64, Value)>, key: u64, value: Value, other: u64)
    requires
        keys_rise(items),
    ensures
        lookup(assigned(items, key, value), other) == (if other != key {
            lookup(items, other)
        } else if value is Nil {
            None
        } else {
            Some(value)
        }),
{
    if value is Nil {
        let r = assigned(items, key, value);
        lemma_assigned_rises(items, key, value);
        lemma_find_some(items, key);
        lemma_find_some(items, other);
        lemma_find_some(r, other);
        lemma_find_is_place(items, other);
        lemma_find_is_place(r, other);
        match find(items, key) {
            Some(i) => {
                if find(r, other) is Some {
                    let j = find(r, other)->0;
                    let j0 = if j < i { j } else { j + 1 };
                    assert(r[j] == items[j0]);
                    if other == key {
                        lemma_find_at(items, key, j0);
                    }
                }
                if other != key && find(items, other) is Some {
                    let j = find(items, other)->0;
                    let j2 = if j < i { j } else { j - 1 };
                    assert(r[j2] == items[j]);
                }
            },
            None => {},
        }
    } else {
        lemma_put_lookup(items, key, value, other);
    }
}

/// The value of the last of the pairs that has the key.
pub open spec fn last_value(pairs: Seq<(u64, Value)>, key: u64) -> Option<Value>
    decreases pairs.len(),
{
    if pairs.len() == 0 {
        None
    } else if pairs.last().0 == key {
        Some(pairs.last().1)
    } else {
        last_value(pairs.drop_last(), key)
    }
}

/// The later pair wins: the table that pairs make holds, under each key, the
/// value of the last pair with that key.
pub proof fn lemma_built_lookup(pairs: Seq<(u64, Value)>, key: u64)
    ensures
        lookup(built(pairs).items, key) == last_value(pairs, key),
    decreases pairs.len(),
{
    if pairs.len() > 0 {
        lemma_built_lookup(pairs.drop_last(), key);
        lemma_built_rises(pairs.drop_last());
        lemma_put_lookup(built(pairs.drop_last()).items, pairs.last().0, pairs.last().1, key);
    }
}

/// The table that pairs make has rising keys.
pub proof fn lemma_built_rises(pairs: Seq<(u64, Value)>)
    ensures
        keys_rise(built(pairs).items),
    decreases pairs.len(),
{
    if pairs.len() > 0 {
        lemma_built_rises(pairs.drop_last());
        lemma_assigned_rises(built(pairs.drop_last()).items, pairs.last().0, pairs.last().1);
    }
}

/// Searches the pairs for a key by halving. Returns the place of the key, or
/// else the place at which it would have to be put.
pub fn search(items: &Vec<(u64, Value)>, key: u64) -> (r: Result<usize, usize>)
    requires
        keys_rise(items@),
    ensures
        match r {
            Ok(i) => find(items@, key) == Some(i as int) && i < items@.len(),
            Err(i) => find(items@, key) is None && rank(items@, key) == i && i <= items@.len(),
        },
{
    let mut lo: usize = 0;
    let mut hi: usize = items.len();
    while lo < hi
        invariant
            keys_rise(items@),
            lo <= hi <= items@.len(),
            forall|j: int| 0 <= j < lo ==> items@[j].0 < key,
            forall|j: int| hi <= j < items@.len() ==> items@[j].0 > key,
        decreases hi - lo,
    {
        let mid = lo + (hi - lo) / 2;
        let k = items[mid].0;
        if k == key {
            proof {
                lemma_find_at(items@, key, mid as int);
            }
            return Ok(mid);
        } else if k < key {
            assert forall|j: int| 0 <= j < mid + 1 implies items@[j].0 < key by {
                if j < mid {
                    assert(items@[j].0 < items@[mid as int].0);
                }
            }
            lo = mid + 1;
        } else {
            assert forall|j: int| mid <= j < items@.len() implies items@[j].0 > key by {
                if j > mid {
                    assert(items@[mid as int].0 < items@[j].0);
                }
            }
            hi = mid;
        }
    }
    proof {
        lemma_find_none(items@, key, lo as int);
    }
    Err(lo)
}

impl Table {
    /// Makes a table of the given pairs. The keys are put in rising order; of
    /// two pairs with one key the later one stays, and the handle in the
    /// earlier one's value is given up. The table takes over the other
    /// handles.
    pub fn new(heap: &mut Heap, items: Vec<(u64, Value)>) -> (t: Table)
        requires
            old(heap).wf(),
        ensures
            t.id == old(heap)@.slots.len(),
            final(heap)@ == old(heap)@.released_all(built(items@).shadowed).allocated(
                ObjectView::Table(built(items@).items),
            ),
            final(heap).wf(),
    {
        let mut sorted: Vec<(u64, Value)> = Vec::new();
        let mut shadowed: Vec<Value> = Vec::new();
        let mut i: usize = 0;
        assert(items@.subrange(0, 0) =~= Seq::<(u64, Value)>::empty());
        while i < items.len()
            invariant
                i <= items.len(),
                sorted@ == built(items@.subrange(0, i as int)).items,
                shadowed@ == built(items@.subrange(0, i as int)).shadowed,
                keys_rise(sorted@),
            decreases items.len() - i,
        {
            let (key, value) = items[i];
            proof {
                let sub = items@.subrange(0, i + 1);
                assert(sub.drop_last() =~= items@.subrange(0, i as int));
                assert(sub.last() == items@[i as int]);
                lemma_assigned_rises(sorted@, key, value);
            }
            match search(&sorted, key) {
                Ok(at) => {
                    shadowed.push(sorted[at].1);
                    sorted.set(at, (key, value));
                },
                Err(at) => {
                    sorted.insert(at, (key, value));
                },
            }
            i += 1;
        }
        assert(items@.subrange(0, items@.len() as int) =~= items@);
        heap.release_all(shadowed);
        proof {
            lemma_released_all_len(old(heap)@, built(items@).shadowed);
        }
        let id = heap.allocate(Object::Table(sorted));
        Table { id }
    }

    /// Whether the handle leads to a table.
    pub fn is_valid(&self, heap: &Heap) -> (r: bool)
        ensures
            r == heap@.table(*self) is Some,
    {
        if heap.is_live(self.id) {
            match &heap.slots[self.id].object {
                Object::Table(_) => true,
                _ => false,
            }
        } else {
            false
        }
    }

    /// A copy of the pairs, in rising order of the keys, with no handle
    /// counted.
    pub fn pairs(&self, heap: &Heap) -> (r: Vec<(u64, Value)>)
        ensures
            r@ == (match heap@.table(*self) {
                Some(items) => items,
                None => Seq::empty(),
            }),
    {
        let mut r: Vec<(u64, Value)> = Vec::new();
        if heap.is_live(self.id) {
            match &heap.slots[self.id].object {
                Object::Table(items) => {
                    let mut i: usize = 0;
                    while i < items.len()
                        invariant
                            i <= items.len(),
                            r@ == items@.subrange(0, i as int),
                        decreases items.len() - i,
                    {
                        r.push(items[i]);
                        assert(r@ =~= items@.subrange(0, i + 1));
                        i += 1;
                    }
                    assert(items@.subrange(0, items@.len() as int) =~= items@);
                },
                _ => {},
            }
        }
        r
    }

    /// The pairs as new tuples of two cells, the key and a copy of the value,
    /// in rising order of the keys.
    pub fn to_vec(&self, heap: &mut Heap) -> (r: Vec<Value>)
        requires
            old(heap).wf(),
        ensures
            match old(heap)@.table(*self) {
                Some(items) => {
                    &&& final(heap)@ == listed(old(heap)@, items)
                    &&& r@.len() == items.len()
                    &&& forall|i: int|
                        0 <= i < items.len() ==> r@[i] == Value::Tuple(
                            Tuple { id: (old(heap)@.slots.len() + i) as usize },
                        )
                },
                None => r@.len() == 0 && final(heap)@ == old(heap)@,
            },
            final(heap).wf(),
    {
        let items = self.pairs(heap);
        let mut r: Vec<Value> = Vec::new();
        let mut i: usize = 0;
        assert(items@.subrange(0, 0) =~= Seq::<(u64, Value)>::empty());
        while i < items.len()
            invariant
                i <= items.len(),
                heap.wf(),
                heap@ == listed(old(heap)@, items@.subrange(0, i as int)),
                heap@.slots.len() == old(heap)@.slots.len() + i,
                r@.len() == i,
                forall|j: int|
                    0 <= j < i ==> r@[j] == Value::Tuple(
                        Tuple { id: (old(heap)@.slots.len() + j) as usize },
                    ),
            decreases items.len() - i,
        {
            let (key, value) = items[i];
            heap.retain(&value);
            let mut cells: Vec<Value> = Vec::new();
            cells.push(Value::Integer(to_integer(key)));
            cells.push(value);
            assert(cells@ =~= pair_cells(items@[i as int]));
            let t = Tuple::new(heap, cells);
            r.push(Value::Tuple(t));
            proof {
                let sub = items@.subrange(0, i + 1);
                assert(sub.drop_last() =~= items@.subrange(0, i as int));
                assert(sub.last() == items@[i as int]);
            }
            i += 1;
        }
        assert(items@.subrange(0, items@.len() as int) =~= items@);
        r
    }

    /// A copy of the value under `key`.
    pub fn get(&self, heap: &mut Heap, key: u64) -> (r: Option<Value>)
        requires
            old(heap).wf(),
        ensures
            match old(heap)@.table(*self) {
                Some(items) => r == lookup(items, key) && final(heap)@ == (match r {
                    Some(v) => old(heap)@.retained(v),
                    None => old(heap)@,
                }),
                None => r is None && final(heap)@ == old(heap)@,
            },
            final(heap).wf(),
    {
        if !heap.is_live(self.id) {
            return None;
        }
        let v = match &heap.slots[self.id].object {
            Object::Table(items) => {
                assert(heap@.slots[self.id as int].wf());
                match search(items, key) {
                    Ok(at) => items[at].1,
                    Err(_) => {
                        return None;
                    },
                }
            },
            _ => {
                return None;
            },
        };
        heap.retain(&v);
        Some(v)
    }

    /// Sets `value` under `key` and returns what stood there. Setting nothing
    /// removes the key. The table takes over the handle in `value`, and the
    /// caller the one in the result.
    pub fn set(&self, heap: &mut Heap, key: u64, value: Value) -> (r: Option<Value>)
        requires
            old(heap).wf(),
        ensures
            match old(heap)@.table(*self) {
                Some(items) => r == lookup(items, key) && final(heap)@ == old(heap)@.with_object(
                    self.id,
                    ObjectView::Table(assigned(items, key, value)),
                ),
                None => r is None && final(heap)@ == old(heap)@,
            },
            final(heap).wf(),
    {
        if !heap.is_live(self.id) {
            return None;
        }
        assert(heap@.slots[self.id as int].wf());
        match &mut heap.slots[self.id].object {
            Object::Table(items) => {
                let ghost before = items@;
                proof {
                    lemma_assigned_rises(before, key, value);
                }
                let r = match search(items, key) {
                    Ok(index) => {
                        let previous = items[index].1;
                        match value {
                            Value::Nil => {
                                items.remove(index);
                            },
                            _ => {
                                items.set(index, (key, value));
                            },
                        }
                        Some(previous)
                    },
                    Err(index) => {
                        match value {
                            Value::Nil => {},
                            _ => {
                                items.insert(index, (key, value));
                            },
                        }
                        None
                    },
                };
                assert(items@ == assigned(before, key, value));
                assert(heap@.slots =~= old(heap)@.with_object(
                    self.id,
                    ObjectView::Table(assigned(before, key, value)),
                ).slots);
                r
            },
            _ => {
                assert(heap@.slots =~= old(heap)@.slots);
                None
            },
        }
    }
}

/// Giving up handles leaves the number of slots as it is.
pub proof fn lemma_released_all_len(h: HeapView, pending: Seq<Value>)
    ensures
        h.released_all(pending).slots.len() == h.slots.len(),
    decreases h.live_count(), pending.len(),
{
    if pending.len() > 0 {
        let rest = pending.drop_last();
        match pending.last().strong_id() {
            Some(id) => if h.live(id) {
                let strong = h.slots[id as int].strong;
                if strong >= usize::MAX {
                    lemma_released_all_len(h, rest);
                } else if strong > 1 {
                    super::heap::lemma_live_count_update(
                        h,
                        id,
                        super::heap::SlotView {
                            strong: (strong - 1) as nat,
                            object: h.slots[id as int].object,
                        },
                    );
                    lemma_released_all_len(h.with_strong(id, (strong - 1) as nat), rest);
                } else {
                    super::heap::lemma_live_count_update(
                        h,
                        id,
                        super::heap::SlotView { strong: 0, object: ObjectView::Free },
                    );
                    lemma_released_all_len(
                        h.freed(id),
                        rest + h.slots[id as int].object.children(),
                    );
                }
            } else {
                lemma_released_all_len(h, rest);
            },
            None => {
                lemma_released_all_len(h, rest);
            },
        }
    }
}

} // verus!
