use vstd::prelude::*;
use crate::bytecode::Op;
use super::binaryop::Decision;
use super::codegen::{CodeGenerator, GenView};
use super::expr::{lemma_grows_transitive, Expr};

verus! {

/// An operator with one operand, and its operand.
pub struct UnaryOp {
    pub op_type: UnaryOpType,
    pub expr: Box<Expr>,
}

#[derive(Clone, Copy, Debug, PartialEq, Eq, Structural)]
pub enum UnaryOpType {
    Neg,
    Not,
    LogicNot,
    IntToReal,
    Floor,
    Ceil,
    Trunc,
    Round,
}

impl UnaryOpType {
    /// The instruction of an operator that is one instruction.
    pub open spec fn plain_op(self) -> Option<Op> {
        match self {
            UnaryOpType::Neg => Some(Op::Neg),
            UnaryOpType::Not => Some(Op::Not),
            UnaryOpType::LogicNot => None,
            UnaryOpType::IntToReal => Some(Op::IntToReal),
            UnaryOpType::Floor => Some(Op::Floor),
            UnaryOpType::Ceil => Some(Op::Ceil),
            UnaryOpType::Trunc => Some(Op::Trunc),
            UnaryOpType::Round => Some(Op::Round),
        }
    }

    fn get_plain_op(&self) -> (r: Option<Op>)
        ensures
            r == self.plain_op(),
    {
        match self {
            UnaryOpType::Neg => Some(Op::Neg),
            UnaryOpType::Not => Some(Op::Not),
            UnaryOpType::LogicNot => None,
            UnaryOpType::IntToReal => Some(Op::IntToReal),
            UnaryOpType::Floor => Some(Op::Floor),
            UnaryOpType::Ceil => Some(Op::Ceil),
            UnaryOpType::Trunc => Some(Op::Trunc),
            UnaryOpType::Round => Some(Op::Round),
        }
    }
}

/// How `LogicNot` decides: zero gives `1`, anything else `0`.
pub open spec fn logic_not() -> Decision {
    Decision { negate: false, on_zero: true, otherwise: 0 }
}

impl UnaryOp {
    /// The state after the operator was lowered: the operand, then the
    /// operator's instruction, or for `LogicNot` its decision.
    pub open spec fn lowered(&self, g: GenView) -> GenView
        decreases self,
    {
        let g = self.expr.lowered(g);
        match self.op_type.plain_op() {
            Some(op) => g.push(op),
            None => logic_not().lowered(g),
        }
    }

    /// Emits the operand, then the operator.
    pub fn compile(&self, g: &mut CodeGenerator)
        requires
            self.expr.compilable(old(g)@.vars),
        ensures
            final(g)@ == self.lowered(old(g)@),
            final(g)@.grows_from(old(g)@),
            old(g)@.wf() ==> final(g)@.wf(),
        decreases self,
    {
        self.expr.compile(g);
        let ghost mid = g@;
        match self.op_type.get_plain_op() {
            Some(op) => g.push(op),
            None => {
                let d = Decision { negate: false, on_zero: true, otherwise: 0 };
                d.compile(g);
            },
        }
        proof {
            lemma_grows_transitive(old(g)@, mid, g@);
        }
    }
}

} // verus!
