use vstd::prelude::*;
use crate::bytecode::op::{
    agrees, need_integer, need_real, ActionView, Effect, OpAction, OpError, RealRequest,
};
use crate::callstack::{CallStack, CallStackView};
use crate::datamodel::{HeapView, Real, Value, ValueType};

verus! {

/// The four instructions that round a real.
#[derive(Clone, Copy, Debug, PartialEq, Eq, Structural)]
pub enum Rounding {
    Floor,
    Ceil,
    Trunc,
    Round,
}

impl Rounding {
    /// What is asked of the host.
    pub open spec fn request(self, a: Real) -> RealRequest {
        match self {
            Rounding::Floor => RealRequest::Floor(a),
            Rounding::Ceil => RealRequest::Ceil(a),
            Rounding::Trunc => RealRequest::Trunc(a),
            Rounding::Round => RealRequest::Round(a),
        }
    }

    /// What the instruction does: it takes a real off the stack and leaves
    /// the rounding to the host.
    pub open spec fn effect(self, m: CallStackView, heap: HeapView) -> Effect {
        if m.stack.len() < 1 {
            Effect::fail(OpError::StackEmpty, m, heap)
        } else {
            match m.top(0) {
                Value::Real(a) => Effect::act(ActionView::Real(self.request(a)), m.popped(1), heap),
                v => Effect::fail(OpError::IntoType(v.mismatch(ValueType::Real)), m, heap),
            }
        }
    }

    pub fn exec(self, m: &mut CallStack) -> (r: Result<OpAction, OpError>)
        ensures
            forall|heap: HeapView| agrees(self.effect(old(m)@, heap), r, final(m)@, heap),
    {
        let a = need_real(m.peek(0)?)?;
        m.take(1);
        let request = match self {
            Rounding::Floor => RealRequest::Floor(a),
            Rounding::Ceil => RealRequest::Ceil(a),
            Rounding::Trunc => RealRequest::Trunc(a),
            Rounding::Round => RealRequest::Round(a),
        };
        Ok(OpAction::Real(request))
    }
}

/// `IntToReal` takes an integer off the stack and leaves the conversion to
/// the host.
pub open spec fn effect_int_to_real(m: CallStackView, heap: HeapView) -> Effect {
    if m.stack.len() < 1 {
        Effect::fail(OpError::StackEmpty, m, heap)
    } else {
        match m.top(0) {
            Value::Integer(a) => Effect::act(
                ActionView::Real(RealRequest::FromInteger(a)),
                m.popped(1),
                heap,
            ),
            v => Effect::fail(OpError::IntoType(v.mismatch(ValueType::Integer)), m, heap),
        }
    }
}

pub fn exec_int_to_real(m: &mut CallStack) -> (r: Result<OpAction, OpError>)
    ensures
        forall|heap: HeapView| agrees(effect_int_to_real(old(m)@, heap), r, final(m)@, heap),
{
    let a = need_integer(m.peek(0)?)?;
    m.take(1);
    Ok(OpAction::Real(RealRequest::FromInteger(a)))
}

} // verus!
