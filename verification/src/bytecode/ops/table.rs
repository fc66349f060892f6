use vstd::prelude::*;
use crate::bytecode::op::{agrees, need_list, Effect, OpAction, OpError};
use crate::bytecode::ops::tuple::items_of;
use crate::callstack::{CallStack, CallStackView};
use crate::datamodel::heap::values_of;
use crate::datamodel::table::{built, integer_key, to_key};
use crate::datamodel::tuple::copy_values;
use crate::datamodel::{
    Heap, HeapView, ObjectView, Table, Value, ValueTryIntoError, ValueType,
};

verus! {

/// The pair that one item of the list gives. The item must be a tuple whose
/// first cell is an integer, the key, and which has a second cell, the value.
pub open spec fn entry_pair(heap: HeapView, entry: Value) -> Result<(u64, Value), OpError> {
    match entry {
        Value::Tuple(t) => match heap.tuple(t) {
            Some(cells) if cells.len() > 0 => match cells[0] {
                Value::Integer(k) => if cells.len() > 1 {
                    Ok((integer_key(k), cells[1]))
                } else {
                    Err(OpError::IndexRead(1))
                },
                c => Err(OpError::IntoType(c.mismatch(ValueType::Integer))),
            },
            _ => Err(OpError::IndexRead(0)),
        },
        _ => Err(OpError::IntoType(entry.mismatch(ValueType::Tuple))),
    }
}

/// The pairs that the items of the list give, or the error of the first item
/// that gives none.
pub open spec fn entry_pairs(heap: HeapView, entries: Seq<Value>) -> Result<
    Seq<(u64, Value)>,
    OpError,
>
    decreases entries.len(),
{
    if entries.len() == 0 {
        Ok(Seq::empty())
    } else {
        match entry_pairs(heap, entries.drop_last()) {
            Err(e) => Err(e),
            Ok(pairs) => match entry_pair(heap, entries.last()) {
                Ok(pair) => Ok(pairs.push(pair)),
                Err(e) => Err(e),
            },
        }
    }
}

/// `TableCreate` takes a list of pairs off the stack and puts a table of
/// them on it. The values are copied. Of two pairs with one key the later one
/// stays. The handle to the list is given up.
pub open spec fn effect_table_create(m: CallStackView, heap: HeapView) -> Effect {
    if m.stack.len() < 1 {
        Effect::fail(OpError::StackEmpty, m, heap)
    } else {
        match m.top(0) {
            Value::List(list) => match entry_pairs(heap, items_of(heap, list)) {
                Ok(pairs) => Effect::next(
                    m.popped(1).pushed(Value::Table(Table { id: heap.slots.len() as usize })),
                    heap.retained_all(values_of(pairs)).released_all(
                        built(pairs).shadowed,
                    ).allocated(ObjectView::Table(built(pairs).items)).released(
                        Value::List(list),
                    ),
                ),
                Err(e) => Effect::fail(e, m, heap),
            },
            v => Effect::fail(OpError::IntoType(v.mismatch(ValueType::List)), m, heap),
        }
    }
}

fn read_entry(heap: &Heap, entry: Value) -> (r: Result<(u64, Value), OpError>)
    ensures
        r == entry_pair(heap@, entry),
{
    match entry {
        Value::Tuple(t) => {
            let cells = t.cells(heap);
            if cells.len() == 0 {
                return Err(OpError::IndexRead(0));
            }
            match cells[0] {
                Value::Integer(k) => {
                    if cells.len() > 1 {
                        Ok((to_key(k), cells[1]))
                    } else {
                        Err(OpError::IndexRead(1))
                    }
                },
                c => Err(
                    OpError::IntoType(
                        ValueTryIntoError { found: c.get_type(), expected: ValueType::Integer },
                    ),
                ),
            }
        },
        _ => Err(
            OpError::IntoType(
                ValueTryIntoError { found: entry.get_type(), expected: ValueType::Tuple },
            ),
        ),
    }
}

pub fn exec_table_create(m: &mut CallStack, heap: &mut Heap) -> (r: Result<OpAction, OpError>)
    requires
        old(heap).wf(),
    ensures
        agrees(effect_table_create(old(m)@, old(heap)@), r, final(m)@, final(heap)@),
        final(heap).wf(),
{
    let list = need_list(m.peek(0)?)?;
    let entries = copy_values(list.as_slice(heap));
    let mut table: Vec<(u64, Value)> = Vec::new();
    let mut values: Vec<Value> = Vec::new();
    let mut i: usize = 0;
    assert(entries@.subrange(0, 0) =~= Seq::<Value>::empty());
    assert(values@ =~= values_of(table@));
    while i < entries.len()
        invariant
            i <= entries.len(),
            heap@ == old(heap)@,
            heap.wf(),
            m@ == old(m)@,
            m@.stack.len() >= 1,
            m@.top(0) == Value::List(list),
            entries@ == items_of(heap@, list),
            entry_pairs(heap@, entries@.subrange(0, i as int)) == Ok::<
                Seq<(u64, Value)>,
                OpError,
            >(table@),
            values@ == values_of(table@),
        decreases entries.len() - i,
    {
        let ghost sub = entries@.subrange(0, i + 1);
        assert(sub.drop_last() =~= entries@.subrange(0, i as int));
        assert(sub.last() == entries@[i as int]);
        match read_entry(heap, entries[i]) {
            Ok(pair) => {
                table.push(pair);
                values.push(pair.1);
                assert(values@ =~= values_of(table@));
            },
            Err(e) => {
                proof {
                    lemma_entry_pairs_error(heap@, entries@, i as int);
                }
                return Err(e);
            },
        }
        i += 1;
    }
    assert(entries@.subrange(0, entries@.len() as int) =~= entries@);
    m.take(1);
    heap.retain_all(values.as_slice());
    proof {
        crate::datamodel::tuple::lemma_retained_all_len(old(heap)@, values@);
    }
    let table = Table::new(heap, table);
    heap.release(Value::List(list));
    m.push(Value::Table(table));
    Ok(OpAction::Next)
}

/// Where the items before item `i` give pairs and item `i` gives none, the
/// error of the list is the error of item `i`.
pub proof fn lemma_entry_pairs_error(heap: HeapView, entries: Seq<Value>, i: int)
    requires
        0 <= i < entries.len(),
        entry_pairs(heap, entries.subrange(0, i)) is Ok,
        entry_pair(heap, entries[i]) is Err,
    ensures
        entry_pairs(heap, entries) == Err::<Seq<(u64, Value)>, OpError>(
            entry_pair(heap, entries[i])->Err_0,
        ),
    decreases entries.len(),
{
    if i == entries.len() - 1 {
        assert(entries.drop_last() =~= entries.subrange(0, i));
    } else {
        let init = entries.drop_last();
        assert(init.subrange(0, i) =~= entries.subrange(0, i));
        lemma_entry_pairs_error(heap, init, i);
    }
}

} // verus!
