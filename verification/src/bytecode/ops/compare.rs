use vstd::prelude::*;
use crate::bytecode::op::{agrees, need_integer, need_real, Effect, OpAction, OpError};
use crate::callstack::{CallStack, CallStackView};
use crate::datamodel::{Heap, HeapView, Value, ValueTryIntoError, ValueType};

verus! {

/// What `Cmp` gives for two things that have no order, only an identity: `0`
/// where they are the same, as for two equal numbers, and `1` where they are
/// not.
pub open spec fn sameness(same: bool) -> Value {
    Value::Integer(if same { 0i64 } else { 1i64 })
}

/// The order of two integers as a sign.
pub open spec fn sign_of(a: i64, b: i64) -> i64 {
    if a < b {
        -1i64
    } else if a == b {
        0i64
    } else {
        1i64
    }
}

/// Whether a tuple with identity `lhs` is the tuple that `rhs` leads to.
/// `rhs` must be a handle to a tuple, strong or weak.
pub open spec fn same_tuple(lhs: usize, rhs: Value, heap: HeapView) -> Result<
    bool,
    ValueTryIntoError,
> {
    match rhs {
        Value::Tuple(t) => Ok(lhs == heap.identity(t.id)),
        Value::TupleWeak(t) => Ok(lhs == heap.identity(t.id)),
        _ => Err(rhs.mismatch(ValueType::Tuple)),
    }
}

/// What `Cmp` finds of two values.
///
/// * Nothing equals nothing (`0`) and is below everything else (`-1`).
/// * Two integers and two reals give the sign of their order; two reals
///   that have no order, because one of them is a NaN, are an error.
/// * Two handles of one kind give `0` if they lead to the same container and
///   `1` if not: containers are compared by identity, never by what they
///   hold. A strong and a weak handle to a tuple count as one kind.
/// * Two routines of the host give `0` if they are the same and `1` if not.
pub open spec fn comparison(lhs: Value, rhs: Value, heap: HeapView) -> Result<Value, OpError> {
    match lhs {
        Value::Nil => Ok(Value::Integer(if rhs is Nil { 0i64 } else { -1i64 })),
        Value::Integer(a) => match rhs {
            Value::Integer(b) => Ok(Value::Integer(sign_of(a, b))),
            _ => Err(OpError::IntoType(rhs.mismatch(ValueType::Integer))),
        },
        Value::Real(a) => match rhs {
            Value::Real(b) => match a.order(b) {
                Some(s) => Ok(Value::Integer(s)),
                None => Err(OpError::BadType(ValueType::Real)),
            },
            _ => Err(OpError::IntoType(rhs.mismatch(ValueType::Real))),
        },
        Value::Tuple(t) => match same_tuple(heap.identity(t.id), rhs, heap) {
            Ok(b) => Ok(sameness(b)),
            Err(e) => Err(OpError::IntoType(e)),
        },
        Value::TupleWeak(t) => match same_tuple(heap.identity(t.id), rhs, heap) {
            Ok(b) => Ok(sameness(b)),
            Err(e) => Err(OpError::IntoType(e)),
        },
        Value::Table(t) => match rhs {
            Value::Table(u) => Ok(sameness(heap.identity(t.id) == heap.identity(u.id))),
            _ => Err(OpError::IntoType(rhs.mismatch(ValueType::Table))),
        },
        Value::List(t) => match rhs {
            Value::List(u) => Ok(sameness(heap.identity(t.id) == heap.identity(u.id))),
            _ => Err(OpError::IntoType(rhs.mismatch(ValueType::List))),
        },
        Value::Buffer(t) => match rhs {
            Value::Buffer(u) => Ok(sameness(heap.identity(t.id) == heap.identity(u.id))),
            _ => Err(OpError::IntoType(rhs.mismatch(ValueType::Buffer))),
        },
        Value::Function(t) => match rhs {
            Value::Function(u) => Ok(sameness(heap.identity(t.id) == heap.identity(u.id))),
            _ => Err(OpError::IntoType(rhs.mismatch(ValueType::Function))),
        },
        Value::NativeFn(t) => match rhs {
            Value::NativeFn(u) => Ok(sameness(t == u)),
            _ => Err(OpError::IntoType(rhs.mismatch(ValueType::NativeFn))),
        },
        Value::Unknown(t) => match rhs {
            Value::Unknown(u) => Ok(sameness(heap.identity(t.id) == heap.identity(u.id))),
            _ => Err(OpError::IntoType(rhs.mismatch(ValueType::Unknown))),
        },
    }
}

/// `Cmp` takes the right side and then the left side off the stack, gives up
/// their handles, and puts what it finds of them on the stack.
pub open spec fn effect_compare(m: CallStackView, heap: HeapView) -> Effect {
    if m.stack.len() < 2 {
        Effect::fail(OpError::StackEmpty, m, heap)
    } else {
        match comparison(m.top(1), m.top(0), heap) {
            Ok(v) => Effect::next(
                m.popped(2).pushed(v),
                heap.released_all(seq![m.top(1), m.top(0)]),
            ),
            Err(e) => Effect::fail(e, m, heap),
        }
    }
}

/// `GetType` takes a value off the stack, gives up its handle, and puts the
/// number of its kind on the stack.
pub open spec fn effect_get_type(m: CallStackView, heap: HeapView) -> Effect {
    if m.stack.len() < 1 {
        Effect::fail(OpError::StackEmpty, m, heap)
    } else {
        Effect::next(
            m.popped(1).pushed(Value::Integer(m.top(0).kind().spec_tag())),
            heap.released(m.top(0)),
        )
    }
}

fn same_value(same: bool) -> (v: Value)
    ensures
        v == sameness(same),
{
    if same {
        Value::Integer(0)
    } else {
        Value::Integer(1)
    }
}

pub fn cmp_tuple(lhs: usize, rhs: Value, heap: &Heap) -> (r: Result<bool, ValueTryIntoError>)
    ensures
        r == same_tuple(lhs, rhs, heap@),
{
    let rhs = match rhs {
        Value::Tuple(rhs) => heap.identity_of(rhs.id),
        Value::TupleWeak(rhs) => heap.identity_of(rhs.id),
        _ => {
            return Err(ValueTryIntoError { found: rhs.get_type(), expected: ValueType::Tuple });
        },
    };
    Ok(lhs == rhs)
}

fn same_kind(lhs: usize, rhs: Value, kind: ValueType, heap: &Heap) -> (r: Result<Value, OpError>)
    requires
        kind == ValueType::Table || kind == ValueType::List || kind == ValueType::Buffer || kind
            == ValueType::Function || kind == ValueType::Unknown,
    ensures
        r == (if rhs.kind() == kind {
            Ok::<Value, OpError>(sameness(heap@.identity(lhs) == heap@.identity(rhs.strong_id()->0)))
        } else {
            Err(OpError::IntoType(rhs.mismatch(kind)))
        }),
{
    let found = rhs.get_type();
    if found == kind {
        match rhs.get_strong_id() {
            Some(id) => Ok(same_value(heap.identity_of(lhs) == heap.identity_of(id))),
            None => Ok(Value::Nil),
        }
    } else {
        Err(OpError::IntoType(ValueTryIntoError { found, expected: kind }))
    }
}

/// What `Cmp` finds of two values.
pub fn compare(lhs: Value, rhs: Value, heap: &Heap) -> (r: Result<Value, OpError>)
    ensures
        r == comparison(lhs, rhs, heap@),
{
    match lhs {
        Value::Nil => match rhs {
            Value::Nil => Ok(Value::Integer(0)),
            _ => Ok(Value::Integer(-1)),
        },
        Value::Integer(a) => {
            let b = need_integer(rhs)?;
            if a < b {
                Ok(Value::Integer(-1))
            } else if a == b {
                Ok(Value::Integer(0))
            } else {
                Ok(Value::Integer(1))
            }
        },
        Value::Real(a) => {
            let b = need_real(rhs)?;
            match a.compare(b) {
                Some(s) => Ok(Value::Integer(s)),
                None => Err(OpError::BadType(ValueType::Real)),
            }
        },
        Value::Tuple(t) => match cmp_tuple(heap.identity_of(t.id), rhs, heap) {
            Ok(b) => Ok(same_value(b)),
            Err(e) => Err(OpError::IntoType(e)),
        },
        Value::TupleWeak(t) => match cmp_tuple(heap.identity_of(t.id), rhs, heap) {
            Ok(b) => Ok(same_value(b)),
            Err(e) => Err(OpError::IntoType(e)),
        },
        Value::Table(t) => same_kind(t.id, rhs, ValueType::Table, heap),
        Value::List(t) => same_kind(t.id, rhs, ValueType::List, heap),
        Value::Buffer(t) => same_kind(t.id, rhs, ValueType::Buffer, heap),
        Value::Function(t) => same_kind(t.id, rhs, ValueType::Function, heap),
        Value::NativeFn(t) => match rhs {
            Value::NativeFn(u) => Ok(same_value(t.id == u.id)),
            _ => Err(
                OpError::IntoType(
                    ValueTryIntoError { found: rhs.get_type(), expected: ValueType::NativeFn },
                ),
            ),
        },
        Value::Unknown(t) => same_kind(t.id, rhs, ValueType::Unknown, heap),
    }
}

pub fn exec_compare(m: &mut CallStack, heap: &mut Heap) -> (r: Result<OpAction, OpError>)
    requires
        old(heap).wf(),
    ensures
        agrees(effect_compare(old(m)@, old(heap)@), r, final(m)@, final(heap)@),
        final(heap).wf(),
{
    let rhs = m.peek(0)?;
    let lhs = m.peek(1)?;
    let result = compare(lhs, rhs, heap)?;
    m.take(2);
    let mut given_up: Vec<Value> = Vec::new();
    given_up.push(lhs);
    given_up.push(rhs);
    assert(given_up@ =~= seq![lhs, rhs]);
    heap.release_all(given_up);
    m.push(result);
    Ok(OpAction::Next)
}

pub fn exec_get_type(m: &mut CallStack, heap: &mut Heap) -> (r: Result<OpAction, OpError>)
    requires
        old(heap).wf(),
    ensures
        agrees(effect_get_type(old(m)@, old(heap)@), r, final(m)@, final(heap)@),
        final(heap).wf(),
{
    let val = m.pop()?;
    let ty = val.get_type().tag();
    heap.release(val);
    m.push(Value::Integer(ty));
    Ok(OpAction::Next)
}

/// Containers are compared by identity.
///
/// `Cmp` on two handles of one kind gives `0` if the two have the same
/// identity and `1` if not, whatever the containers hold. Two handles to
/// containers that live have the same identity exactly if they lead to the
/// same container.
pub proof fn lemma_containers_compare_by_identity(lhs: Value, rhs: Value, heap: HeapView)
    requires
        heap.wf(),
        lhs.strong_id() is Some,
        lhs.kind() == rhs.kind(),
    ensures
        comparison(lhs, rhs, heap) == Ok::<Value, OpError>(
            sameness(heap.identity(lhs.strong_id()->0) == heap.identity(rhs.strong_id()->0)),
        ),
        heap.live(lhs.strong_id()->0) && heap.live(rhs.strong_id()->0) ==> (comparison(
            lhs,
            rhs,
            heap,
        ) == Ok::<Value, OpError>(Value::Integer(0)) <==> lhs == rhs),
{
}

} // verus!
