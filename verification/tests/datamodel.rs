use tootvm::datamodel::{
    Buffer, Function, Heap, Identity, List, NativeFn, Real, Table, Tuple, TupleWeak, Unknown,
    Value,
    ValueTryIntoError, ValueType,
};

fn num(i: i64) -> Value {
    Value::Integer(i)
}

#[test]
fn kinds_are_numbered_in_the_order_of_their_declaration() {
    let kinds = [
        (ValueType::Nil, "None"),
        (ValueType::Integer, "Integer"),
        (ValueType::Real, "Real"),
        (ValueType::Tuple, "Tuple"),
        (ValueType::TupleWeak, "TupleWeak"),
        (ValueType::Table, "Table"),
        (ValueType::List, "List"),
        (ValueType::Buffer, "Buffer"),
        (ValueType::Function, "Function"),
        (ValueType::NativeFn, "NativeFn"),
        (ValueType::Unknown, "Unknown"),
    ];
    for (number, (kind, name)) in kinds.iter().enumerate() {
        assert_eq!(kind.tag(), number as i64);
        assert_eq!(kind.as_str(), *name);
    }
}

#[test]
fn value_knows_its_kind() {
    assert_eq!(Value::Nil.get_type(), ValueType::Nil);
    assert_eq!(num(1).get_type(), ValueType::Integer);
    assert_eq!(Value::Real(Real::from_bits(0)).get_type(), ValueType::Real);
    assert_eq!(Value::List(List { id: 0 }).get_type(), ValueType::List);
    assert_eq!(Value::TupleWeak(TupleWeak { id: 0 }).get_type(), ValueType::TupleWeak);
}

#[test]
fn coercion_fails_with_the_kind_found_and_the_kind_expected() {
    assert_eq!(num(4).try_integer(), Ok(4));
    assert_eq!(
        Value::Nil.try_integer(),
        Err(ValueTryIntoError { found: ValueType::Nil, expected: ValueType::Integer })
    );
    assert_eq!(
        num(4).try_list(),
        Err(ValueTryIntoError { found: ValueType::Integer, expected: ValueType::List })
    );
    assert_eq!(Value::Tuple(Tuple { id: 3 }).try_tuple(), Ok(Tuple { id: 3 }));
    assert_eq!(
        Value::Tuple(Tuple { id: 3 }).try_tuple_weak(),
        Err(ValueTryIntoError { found: ValueType::Tuple, expected: ValueType::TupleWeak })
    );
}

#[test]
fn booleans_become_one_and_zero() {
    assert_eq!(Value::from_bool(true), num(1));
    assert_eq!(Value::from_bool(false), num(0));
    assert_eq!(Value::from_option(None), Value::Nil);
    assert_eq!(Value::from_option(Some(num(3))), num(3));
}

#[test]
fn reals_are_ordered_as_the_numbers_they_stand_for() {
    let samples = [
        0.0f64,
        -0.0,
        1.0,
        -1.0,
        1.5,
        -1.5,
        f64::MIN_POSITIVE,
        -f64::MIN_POSITIVE,
        f64::MAX,
        f64::MIN,
        f64::INFINITY,
        f64::NEG_INFINITY,
        f64::NAN,
        -f64::NAN,
        5e-324,
        -5e-324,
        1e300,
        -1e-300,
    ];
    for &a in &samples {
        let x = Real::from_bits(a.to_bits());
        assert_eq!(x.test_nan(), a.is_nan(), "{}", a);
        assert_eq!(x.test_zero(), a == 0.0, "{}", a);
        assert_eq!(x.test_negative(), a < 0.0, "{}", a);
        assert_eq!(f64::from_bits(x.negate().to_bits()).to_bits(), (-a).to_bits(), "{}", a);
        for &b in &samples {
            let y = Real::from_bits(b.to_bits());
            let expected = a.partial_cmp(&b).map(|o| o as i64);
            assert_eq!(x.compare(y), expected, "{} against {}", a, b);
        }
    }
}

#[test]
fn real_order_has_the_three_signs() {
    let r = |x: f64| Real::from_bits(x.to_bits());
    assert_eq!(r(1.0).compare(r(2.0)), Some(-1));
    assert_eq!(r(2.0).compare(r(2.0)), Some(0));
    assert_eq!(r(3.0).compare(r(2.0)), Some(1));
    assert_eq!(r(0.0).compare(r(-0.0)), Some(0));
    assert_eq!(r(f64::NAN).compare(r(2.0)), None);
    assert_eq!(r(2.0).compare(r(f64::NAN)), None);
}

#[test]
fn arena_that_the_library_fills_is_in_order() {
    let mut heap = Heap::new();
    assert!(heap.in_order());
    let t = Table::new(&mut heap, vec![(2, num(1)), (1, num(2))]);
    let l = List::new(&mut heap, vec![Value::Table(t)]);
    heap.release(Value::List(l));
    assert!(heap.in_order());
}

#[test]
fn arena_with_a_table_whose_keys_do_not_rise_is_out_of_order() {
    let mut heap = Heap::new();
    let t = Table::new(&mut heap, vec![(1, num(1)), (2, num(2))]);
    match &mut heap.slots[t.id].object {
        tootvm::datamodel::Object::Table(items) => items.swap(0, 1),
        _ => panic!("the slot holds the table"),
    }
    assert!(!heap.in_order());
    let mut counted = Heap::new();
    let l = List::new(&mut counted, vec![]);
    counted.slots[l.id].strong = 0;
    assert!(!counted.in_order());
}

#[test]
fn new_heap_holds_nothing() {
    let heap = Heap::new();
    assert!(!heap.is_live(0));
    assert_eq!(heap.strong_count(0), 0);
    assert_eq!(heap.identity_of(0), 0);
}

#[test]
fn tuple_has_a_fixed_number_of_cells_that_can_be_written() {
    let mut heap = Heap::new();
    let t = Tuple::new(&mut heap, vec![num(1), num(2), num(3)]);
    assert_eq!(t.len(&heap), 3);
    assert_eq!(t.get(&mut heap, 1), Some(num(2)));
    assert_eq!(t.get(&mut heap, 3), None);
    assert_eq!(t.set(&mut heap, 1, num(20)), Some(num(2)));
    assert_eq!(t.set(&mut heap, 3, num(20)), None);
    assert_eq!(t.iter(&mut heap), vec![num(1), num(20), num(3)]);
    assert_eq!(t.cells(&heap), &[num(1), num(20), num(3)]);
    assert_eq!(t.len(&heap), 3);
}

#[test]
fn empty_tuple_holds_nothing_in_every_cell() {
    let mut heap = Heap::new();
    let t = Tuple::empty(&mut heap, 2);
    assert_eq!(t.iter(&mut heap), vec![Value::Nil, Value::Nil]);
    let none = Tuple::empty(&mut heap, 0);
    assert_eq!(none.len(&heap), 0);
}

#[test]
fn tuple_from_borrowed_values_counts_a_handle_for_each() {
    let mut heap = Heap::new();
    let inner = List::new(&mut heap, vec![]);
    assert_eq!(heap.strong_count(inner.id), 1);
    let values = [Value::List(inner), Value::List(inner)];
    let t = Tuple::from_iter(&mut heap, &values);
    assert_eq!(heap.strong_count(inner.id), 3);
    assert_eq!(t.get(&mut heap, 0), Some(Value::List(inner)));
    assert_eq!(heap.strong_count(inner.id), 4);
}

#[test]
fn handle_that_leads_to_no_tuple_reads_as_empty() {
    let mut heap = Heap::new();
    let l = List::new(&mut heap, vec![num(1)]);
    let wrong = Tuple { id: l.id };
    let missing = Tuple { id: 99 };
    assert_eq!(wrong.len(&heap), 0);
    assert_eq!(wrong.get(&mut heap, 0), None);
    assert_eq!(missing.set(&mut heap, 0, num(1)), None);
    assert_eq!(missing.iter(&mut heap), vec![]);
}

#[test]
fn releasing_the_last_handle_empties_the_slot_and_what_it_held() {
    let mut heap = Heap::new();
    let inner = Tuple::new(&mut heap, vec![num(1)]);
    let outer = List::new(&mut heap, vec![Value::Tuple(inner)]);
    let weak = inner.downgrade();
    assert!(heap.is_live(inner.id));
    heap.release(Value::List(outer));
    assert!(!heap.is_live(outer.id));
    assert!(!heap.is_live(inner.id));
    assert_eq!(weak.upgrade(&mut heap), None);
    assert_eq!(outer.len(&heap), 0);
}

#[test]
fn releasing_one_of_two_handles_keeps_the_container() {
    let mut heap = Heap::new();
    let l = List::new(&mut heap, vec![num(1)]);
    heap.retain(&Value::List(l));
    assert_eq!(heap.strong_count(l.id), 2);
    heap.release(Value::List(l));
    assert_eq!(heap.strong_count(l.id), 1);
    assert_eq!(l.len(&heap), 1);
    heap.release(Value::List(l));
    assert_eq!(heap.strong_count(l.id), 0);
    heap.release(Value::List(l));
    assert_eq!(heap.strong_count(l.id), 0);
}

#[test]
fn numbers_and_weak_handles_count_for_nothing() {
    let mut heap = Heap::new();
    let t = Tuple::new(&mut heap, vec![]);
    heap.retain(&Value::TupleWeak(t.downgrade()));
    heap.retain(&num(t.id as i64));
    assert_eq!(heap.strong_count(t.id), 1);
    heap.release(Value::TupleWeak(t.downgrade()));
    assert_eq!(heap.strong_count(t.id), 1);
}

#[test]
fn function_keeps_its_module_alive() {
    let mut heap = Heap::new();
    let module = Tuple::empty(&mut heap, 1);
    heap.retain(&Value::Tuple(module));
    let f = Function::new(&mut heap, module, vec![]);
    assert_eq!(f.module(&heap), Some(module));
    assert_eq!(f.op_at(&heap, 0), None);
    heap.release(Value::Tuple(module));
    assert!(heap.is_live(module.id));
    heap.release(Value::Function(f));
    assert!(!heap.is_live(module.id));
}

#[test]
fn weak_handle_upgrades_exactly_while_a_strong_handle_is_left() {
    let mut heap = Heap::new();
    let t = Tuple::new(&mut heap, vec![num(1)]);
    let w = t.downgrade();
    assert_eq!(w.identity(&heap), t.identity(&heap));
    assert_ne!(w.identity(&heap), 0);
    assert_eq!(w.upgrade(&mut heap), Some(t));
    assert_eq!(heap.strong_count(t.id), 2);
    heap.release(Value::Tuple(t));
    assert_eq!(w.upgrade(&mut heap), Some(t));
    heap.release(Value::Tuple(t));
    heap.release(Value::Tuple(t));
    assert_eq!(heap.strong_count(t.id), 0);
    assert_eq!(w.upgrade(&mut heap), None);
    assert_eq!(w.identity(&heap), 0);
}

#[test]
fn identity_tells_containers_apart() {
    let mut heap = Heap::new();
    let a = List::new(&mut heap, vec![]);
    let b = List::new(&mut heap, vec![]);
    let u = Unknown::new(&mut heap);
    assert_eq!(a.identity(&heap), List { id: a.id }.identity(&heap));
    assert_ne!(a.identity(&heap), b.identity(&heap));
    assert_ne!(u.identity(&heap), 0);
    assert_eq!(List { id: 50 }.identity(&heap), 0);
}

#[test]
fn list_grows_and_shrinks() {
    let mut heap = Heap::new();
    let l = List::empty(&mut heap);
    assert_eq!(l.len(&heap), 0);
    assert_eq!(l.pop(&mut heap), None);
    l.push(&mut heap, num(1));
    l.push(&mut heap, num(2));
    l.append(&mut heap, vec![num(3), num(4)]);
    assert_eq!(l.as_slice(&heap), &[num(1), num(2), num(3), num(4)]);
    assert_eq!(l.pop(&mut heap), Some(num(4)));
    assert_eq!(l.get(&mut heap, 0), Some(num(1)));
    assert_eq!(l.get(&mut heap, 3), None);
    assert_eq!(l.set(&mut heap, 0, num(10)), Some(num(1)));
    assert_eq!(l.set(&mut heap, 3, num(10)), None);
    l.resize(&mut heap, 5);
    assert_eq!(l.as_slice(&heap), &[num(10), num(2), num(3), Value::Nil, Value::Nil]);
    l.resize(&mut heap, 1);
    assert_eq!(l.as_slice(&heap), &[num(10)]);
}

#[test]
fn list_slice_is_a_new_list() {
    let mut heap = Heap::new();
    let l = List::new(&mut heap, vec![num(1), num(2), num(3), num(4)]);
    let part = l.get_slice(&mut heap, 1, 3).unwrap();
    assert_ne!(part, l);
    assert_eq!(part.as_slice(&heap), &[num(2), num(3)]);
    part.push(&mut heap, num(9));
    assert_eq!(l.len(&heap), 4);
    assert_eq!(l.get_slice(&mut heap, 2, 2).map(|p| p.len(&heap)), Some(0));
    assert_eq!(l.get_slice(&mut heap, 3, 2), None);
    assert_eq!(l.get_slice(&mut heap, 0, 5), None);
}

#[test]
fn shrinking_a_list_gives_up_the_handles_in_its_tail() {
    let mut heap = Heap::new();
    let inner = Tuple::new(&mut heap, vec![]);
    let l = List::new(&mut heap, vec![num(1), Value::Tuple(inner)]);
    l.resize(&mut heap, 1);
    assert!(!heap.is_live(inner.id));
}

#[test]
fn buffer_holds_bytes() {
    let mut heap = Heap::new();
    let b = Buffer::new(&mut heap, vec![1, 2, 3]);
    assert_eq!(b.len(&heap), 3);
    assert_eq!(b.get(&heap, 2), Some(num(3)));
    assert_eq!(b.get(&heap, 3), None);
    assert_eq!(b.set(&mut heap, 0, 255), Some(num(1)));
    assert_eq!(b.set(&mut heap, 3, 0), None);
    b.append(&mut heap, &[9, 8]);
    assert_eq!(b.as_slice(&heap), &[255, 2, 3, 9, 8]);
    b.resize(&mut heap, 7);
    assert_eq!(b.as_slice(&heap), &[255, 2, 3, 9, 8, 0, 0]);
    b.resize(&mut heap, 2);
    assert_eq!(b.as_slice(&heap), &[255, 2]);
    let e = Buffer::empty(&mut heap);
    assert_eq!(e.len(&heap), 0);
}

#[test]
fn buffer_slice_is_a_new_buffer() {
    let mut heap = Heap::new();
    let b = Buffer::new(&mut heap, vec![1, 2, 3, 4]);
    let part = b.get_slice(&mut heap, 1, 4).unwrap();
    assert_eq!(part.as_slice(&heap), &[2, 3, 4]);
    assert_eq!(b.get_slice(&mut heap, 2, 1), None);
    assert_eq!(b.get_slice(&mut heap, 0, 5), None);
}

#[test]
fn buffer_copies_a_range_from_another_buffer() {
    let mut heap = Heap::new();
    let dst = Buffer::new(&mut heap, vec![0; 6]);
    let src = Buffer::new(&mut heap, vec![1, 2, 3, 4]);
    assert_eq!(dst.set_slice(&mut heap, &src, 1, 2, 3), Some(()));
    assert_eq!(dst.as_slice(&heap), &[0, 0, 2, 3, 4, 0]);
    assert_eq!(src.as_slice(&heap), &[1, 2, 3, 4]);
}

#[test]
fn buffer_copies_an_overlapping_range_of_itself_forwards_and_backwards() {
    let mut heap = Heap::new();
    let b = Buffer::new(&mut heap, vec![1, 2, 3, 4, 5, 6, 7, 8]);
    assert_eq!(b.set_slice(&mut heap, &b, 0, 2, 4), Some(()));
    assert_eq!(b.as_slice(&heap), &[1, 2, 1, 2, 3, 4, 7, 8]);
    let c = Buffer::new(&mut heap, vec![1, 2, 3, 4, 5, 6, 7, 8]);
    assert_eq!(c.set_slice(&mut heap, &c, 2, 0, 4), Some(()));
    assert_eq!(c.as_slice(&heap), &[3, 4, 5, 6, 5, 6, 7, 8]);
}

#[test]
fn buffer_refuses_a_range_beyond_its_end() {
    let mut heap = Heap::new();
    let b = Buffer::new(&mut heap, vec![1, 2, 3, 4]);
    let src = Buffer::new(&mut heap, vec![1, 2]);
    assert_eq!(b.set_slice(&mut heap, &src, 0, 3, 2), None);
    assert_eq!(b.set_slice(&mut heap, &src, 1, 0, 2), None);
    assert_eq!(b.set_slice(&mut heap, &src, 0, 0, usize::MAX), None);
    assert_eq!(b.set_slice(&mut heap, &src, usize::MAX, 0, 1), None);
    assert_eq!(b.as_slice(&heap), &[1, 2, 3, 4]);
    assert_eq!(b.set_slice(&mut heap, &src, 2, 4, 0), Some(()));
}

#[test]
fn table_orders_its_pairs_by_key() {
    let mut heap = Heap::new();
    let t = Table::new(&mut heap, vec![(1, num(10)), (3, num(30)), (2, num(20))]);
    assert_eq!(t.pairs(&heap), vec![(1, num(10)), (2, num(20)), (3, num(30))]);
    assert_eq!(t.get(&mut heap, 2), Some(num(20)));
    assert_eq!(t.get(&mut heap, 4), None);
}

#[test]
fn table_keeps_the_later_of_two_pairs_with_one_key() {
    let mut heap = Heap::new();
    let t = Table::new(&mut heap, vec![(2, num(1)), (1, num(2)), (2, num(3)), (1, num(4))]);
    assert_eq!(t.pairs(&heap), vec![(1, num(4)), (2, num(3))]);
}

#[test]
fn table_gives_up_the_value_that_a_later_pair_replaces() {
    let mut heap = Heap::new();
    let first = Tuple::new(&mut heap, vec![]);
    let second = Tuple::new(&mut heap, vec![]);
    let t = Table::new(&mut heap, vec![(5, Value::Tuple(first)), (5, Value::Tuple(second))]);
    assert!(!heap.is_live(first.id));
    assert!(heap.is_live(second.id));
    assert_eq!(t.pairs(&heap), vec![(5, Value::Tuple(second))]);
}

#[test]
fn table_sets_replaces_and_removes() {
    let mut heap = Heap::new();
    let t = Table::new(&mut heap, vec![]);
    assert_eq!(t.set(&mut heap, 5, num(50)), None);
    assert_eq!(t.set(&mut heap, 1, num(10)), None);
    assert_eq!(t.set(&mut heap, 9, num(90)), None);
    assert_eq!(t.set(&mut heap, 5, num(55)), Some(num(50)));
    assert_eq!(t.pairs(&heap), vec![(1, num(10)), (5, num(55)), (9, num(90))]);
    assert_eq!(t.set(&mut heap, 5, Value::Nil), Some(num(55)));
    assert_eq!(t.set(&mut heap, 7, Value::Nil), None);
    assert_eq!(t.pairs(&heap), vec![(1, num(10)), (9, num(90))]);
    assert_eq!(t.get(&mut heap, 5), None);
}

#[test]
fn table_is_listed_as_tuples_of_key_and_value() {
    let mut heap = Heap::new();
    let t = Table::new(&mut heap, vec![(3, num(30)), (u64::MAX, num(-1))]);
    let listed = t.to_vec(&mut heap);
    assert_eq!(listed.len(), 2);
    let cells: Vec<Vec<Value>> = listed
        .iter()
        .map(|v| match v {
            Value::Tuple(pair) => pair.cells(&heap).to_vec(),
            other => panic!("no tuple: {:?}", other),
        })
        .collect();
    assert_eq!(cells, vec![vec![num(3), num(30)], vec![num(-1), num(-1)]]);
}

#[test]
fn every_kind_has_its_coercion() {
    let f = Function { id: 2 };
    let n = NativeFn { id: 3 };
    let u = Unknown { id: 4 };
    assert_eq!(Value::Function(f).try_function(), Ok(f));
    assert_eq!(Value::NativeFn(n).try_native_fn(), Ok(n));
    assert_eq!(Value::Unknown(u).try_unknown(), Ok(u));
    assert_eq!(Value::Real(Real::from_bits(9)).try_real(), Ok(Real::from_bits(9)));
    assert_eq!(Value::Buffer(Buffer { id: 1 }).try_buffer(), Ok(Buffer { id: 1 }));
    assert_eq!(Value::Table(Table { id: 1 }).try_table(), Ok(Table { id: 1 }));
    assert_eq!(
        Value::Nil.try_function(),
        Err(ValueTryIntoError { found: ValueType::Nil, expected: ValueType::Function })
    );
    assert_eq!(
        Value::Function(f).try_native_fn(),
        Err(ValueTryIntoError { found: ValueType::Function, expected: ValueType::NativeFn })
    );
    assert_eq!(
        Value::NativeFn(n).try_unknown(),
        Err(ValueTryIntoError { found: ValueType::NativeFn, expected: ValueType::Unknown })
    );
}
