use vstd::prelude::*;
use crate::bytecode::op::{agrees, need_integer, Effect, OpAction, OpError};
use crate::callstack::{CallStack, CallStackView};
use crate::datamodel::{HeapView, Value, ValueType};

verus! {

/// The five instructions that work on the bits of two integers.
#[derive(Clone, Copy, Debug, PartialEq, Eq, Structural)]
pub enum Bitwise {
    Shl,
    Shr,
    And,
    Or,
    Xor,
}

/// The distance of a shift: the lowest six bits of the right side.
pub open spec fn shift_of(b: i64) -> u32 {
    (b & 63) as u32
}

fn get_shift(b: i64) -> (s: u32)
    ensures
        s == shift_of(b),
        s < 64,
{
    let low = b & 63;
    assert(0 <= low < 64) by (bit_vector)
        requires
            low == b & 63,
    ;
    low as u32
}

impl Bitwise {
    /// The result on two integers. A shift goes by the lowest six bits of the
    /// right side; a shift to the right keeps the sign.
    pub open spec fn on_integers(self, a: i64, b: i64) -> i64 {
        match self {
            Bitwise::Shl => a.wrapping_shl(shift_of(b)),
            Bitwise::Shr => a.wrapping_shr(shift_of(b)),
            Bitwise::And => a & b,
            Bitwise::Or => a | b,
            Bitwise::Xor => a ^ b,
        }
    }

    /// What the instruction does. Both sides must be integers; the right
    /// side, on top of the stack, is looked at first.
    pub open spec fn effect(self, m: CallStackView, heap: HeapView) -> Effect {
        if m.stack.len() < 1 {
            Effect::fail(OpError::StackEmpty, m, heap)
        } else {
            match m.top(0) {
                Value::Integer(b) => if m.stack.len() < 2 {
                    Effect::fail(OpError::StackEmpty, m, heap)
                } else {
                    match m.top(1) {
                        Value::Integer(a) => Effect::next(
                            m.popped(2).pushed(Value::Integer(self.on_integers(a, b))),
                            heap,
                        ),
                        lhs => Effect::fail(
                            OpError::IntoType(lhs.mismatch(ValueType::Integer)),
                            m,
                            heap,
                        ),
                    }
                },
                rhs => Effect::fail(OpError::IntoType(rhs.mismatch(ValueType::Integer)), m, heap),
            }
        }
    }

    fn integers(self, a: i64, b: i64) -> (r: i64)
        ensures
            r == self.on_integers(a, b),
    {
        match self {
            Bitwise::Shl => a.wrapping_shl(get_shift(b)),
            Bitwise::Shr => a.wrapping_shr(get_shift(b)),
            Bitwise::And => a & b,
            Bitwise::Or => a | b,
            Bitwise::Xor => a ^ b,
        }
    }

    pub fn exec(self, m: &mut CallStack) -> (r: Result<OpAction, OpError>)
        ensures
            forall|heap: HeapView| agrees(self.effect(old(m)@, heap), r, final(m)@, heap),
    {
        let b = need_integer(m.peek(0)?)?;
        let a = need_integer(m.peek(1)?)?;
        let c = self.integers(a, b);
        m.take(2);
        m.push(Value::Integer(c));
        Ok(OpAction::Next)
    }
}

/// Every bit of an integer flipped.
pub open spec fn effect_not(m: CallStackView, heap: HeapView) -> Effect {
    if m.stack.len() < 1 {
        Effect::fail(OpError::StackEmpty, m, heap)
    } else {
        match m.top(0) {
            Value::Integer(a) => Effect::next(m.popped(1).pushed(Value::Integer(!a)), heap),
            v => Effect::fail(OpError::IntoType(v.mismatch(ValueType::Integer)), m, heap),
        }
    }
}

pub fn exec_not(m: &mut CallStack) -> (r: Result<OpAction, OpError>)
    ensures
        forall|heap: HeapView| agrees(effect_not(old(m)@, heap), r, final(m)@, heap),
{
    let a = need_integer(m.peek(0)?)?;
    m.take(1);
    m.push(Value::Integer(!a));
    Ok(OpAction::Next)
}

} // verus!
