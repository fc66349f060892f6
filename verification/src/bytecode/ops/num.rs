use vstd::prelude::*;
use crate::bytecode::op::{
    agrees, need_integer, need_real, ActionView, Effect, OpAction, OpError, RealRequest,
};
use crate::callstack::{CallStack, CallStackView};
use crate::datamodel::{HeapView, Real, Value, ValueType};

verus! {

/// The five instructions that work on two numbers.
#[derive(Clone, Copy, Debug, PartialEq, Eq, Structural)]
pub enum Arith {
    Add,
    Sub,
    Mul,
    Div,
    Rem,
}

impl Arith {
    /// The result on two integers. Sums, differences and products wrap round.
    /// A quotient is cut off towards zero and a remainder has the sign of the
    /// left side; neither exists where the right side is zero or the quotient
    /// does not fit.
    pub open spec fn on_integers(self, a: i64, b: i64) -> Option<i64> {
        match self {
            Arith::Add => Some(a.wrapping_add(b)),
            Arith::Sub => Some(a.wrapping_sub(b)),
            Arith::Mul => Some(a.wrapping_mul(b)),
            Arith::Div => a.checked_div(b),
            Arith::Rem => a.checked_rem(b),
        }
    }

    /// What is asked of the host for two reals.
    pub open spec fn on_reals(self, a: Real, b: Real) -> RealRequest {
        match self {
            Arith::Add => RealRequest::Add(a, b),
            Arith::Sub => RealRequest::Sub(a, b),
            Arith::Mul => RealRequest::Mul(a, b),
            Arith::Div => RealRequest::Div(a, b),
            Arith::Rem => RealRequest::Rem(a, b),
        }
    }

    /// What the instruction does. The right side is on top of the stack, the
    /// left side below it, and the left side decides: with an integer the
    /// right side must be an integer, with a real a real.
    pub open spec fn effect(self, m: CallStackView, heap: HeapView) -> Effect {
        if m.stack.len() < 2 {
            Effect::fail(OpError::StackEmpty, m, heap)
        } else {
            let rhs = m.top(0);
            match m.top(1) {
                Value::Integer(a) => match rhs {
                    Value::Integer(b) => match self.on_integers(a, b) {
                        Some(c) => Effect::next(m.popped(2).pushed(Value::Integer(c)), heap),
                        None => Effect::fail(OpError::BadType(ValueType::Integer), m, heap),
                    },
                    _ => Effect::fail(
                        OpError::IntoType(rhs.mismatch(ValueType::Integer)),
                        m,
                        heap,
                    ),
                },
                Value::Real(a) => match rhs {
                    Value::Real(b) => Effect::act(
                        ActionView::Real(self.on_reals(a, b)),
                        m.popped(2),
                        heap,
                    ),
                    _ => Effect::fail(OpError::IntoType(rhs.mismatch(ValueType::Real)), m, heap),
                },
                lhs => Effect::fail(OpError::BadType(lhs.kind()), m, heap),
            }
        }
    }

    fn integers(self, a: i64, b: i64) -> (r: Option<i64>)
        ensures
            r == self.on_integers(a, b),
    {
        match self {
            Arith::Add => Some(a.wrapping_add(b)),
            Arith::Sub => Some(a.wrapping_sub(b)),
            Arith::Mul => Some(a.wrapping_mul(b)),
            Arith::Div => a.checked_div(b),
            Arith::Rem => a.checked_rem(b),
        }
    }

    fn reals(self, a: Real, b: Real) -> (r: RealRequest)
        ensures
            r == self.on_reals(a, b),
    {
        match self {
            Arith::Add => RealRequest::Add(a, b),
            Arith::Sub => RealRequest::Sub(a, b),
            Arith::Mul => RealRequest::Mul(a, b),
            Arith::Div => RealRequest::Div(a, b),
            Arith::Rem => RealRequest::Rem(a, b),
        }
    }

    pub fn exec(self, m: &mut CallStack) -> (r: Result<OpAction, OpError>)
        ensures
            forall|heap: HeapView| agrees(self.effect(old(m)@, heap), r, final(m)@, heap),
    {
        let rhs = m.peek(0)?;
        let lhs = m.peek(1)?;
        match lhs {
            Value::Integer(a) => {
                let b = need_integer(rhs)?;
                match self.integers(a, b) {
                    Some(c) => {
                        m.take(2);
                        m.push(Value::Integer(c));
                        Ok(OpAction::Next)
                    },
                    None => Err(OpError::BadType(ValueType::Integer)),
                }
            },
            Value::Real(a) => {
                let b = need_real(rhs)?;
                m.take(2);
                Ok(OpAction::Real(self.reals(a, b)))
            },
            _ => Err(OpError::BadType(lhs.get_type())),
        }
    }
}

/// The sign flipped: of an integer, wrapping round, or of a real.
pub open spec fn effect_neg(m: CallStackView, heap: HeapView) -> Effect {
    if m.stack.len() < 1 {
        Effect::fail(OpError::StackEmpty, m, heap)
    } else {
        match m.top(0) {
            Value::Integer(a) => Effect::next(
                m.popped(1).pushed(Value::Integer(0i64.wrapping_sub(a))),
                heap,
            ),
            Value::Real(a) => Effect::next(m.popped(1).pushed(Value::Real(a.negated())), heap),
            v => Effect::fail(OpError::BadType(v.kind()), m, heap),
        }
    }
}

pub fn exec_neg(m: &mut CallStack) -> (r: Result<OpAction, OpError>)
    ensures
        forall|heap: HeapView| agrees(effect_neg(old(m)@, heap), r, final(m)@, heap),
{
    let val = m.peek(0)?;
    let val = match val {
        Value::Integer(a) => Value::Integer(0i64.wrapping_sub(a)),
        Value::Real(a) => Value::Real(a.negate()),
        _ => {
            return Err(OpError::BadType(val.get_type()));
        },
    };
    m.take(1);
    m.push(val);
    Ok(OpAction::Next)
}

} // verus!
