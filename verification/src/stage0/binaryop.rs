use vstd::prelude::*;
use crate::bytecode::{LiteralValue, Op};
use super::codegen::{CodeGenerator, GenView};
use super::expr::{lemma_grows_transitive, Expr};

verus! {

/// An operator with two operands, and its operands.
pub struct BinaryOp {
    pub op_type: BinaryOpType,
    pub lhs: Box<Expr>,
    pub rhs: Box<Expr>,
}

#[derive(Clone, Copy, Debug, PartialEq, Eq, Structural)]
pub enum BinaryOpType {
    Add,
    Sub,
    Mul,
    Div,
    Rem,
    Shl,
    Shr,
    And,
    Or,
    Xor,
    Equal,
    NotEqual,
    Greater,
    GreaterOrEqual,
    Less,
    LessOrEqual,
    /// What `Cmp` leaves, unchanged: for two numbers the sign of their order,
    /// `-1`, `0` or `1`; for two containers of one kind `0` if they are the
    /// same container and `1` if not.
    Identity,
    LogicAnd,
    LogicOr,
}

/// How a test of the sign that `Cmp` leaves is turned into `0` or `1`.
pub struct Decision {
    /// Whether the sign is flipped before it is tested.
    pub negate: bool,
    /// Whether the test is for zero; otherwise it is for a negative number.
    pub on_zero: bool,
    /// What is pushed where the test fails. Where it holds, the other of `0`
    /// and `1` is pushed.
    pub otherwise: i64,
}

impl Decision {
    /// The conditional jump of the decision, with no distance yet.
    pub open spec fn jump(self) -> Op {
        if self.on_zero {
            Op::JumpZero(0)
        } else {
            Op::JumpNeg(0)
        }
    }

    /// What is pushed where the test holds.
    pub open spec fn on_hit(self) -> i64 {
        if self.otherwise == 0 {
            1
        } else {
            0
        }
    }

    /// The state after the decision was emitted: the optional `Neg`, the
    /// conditional jump to a first new label, the literal for a failed test,
    /// a jump to a second new label, then the first label and the other
    /// literal, then the second label.
    pub open spec fn lowered(self, g: GenView) -> GenView {
        let label_hit = g.next_label();
        let label_next = (g.labels.len() + 1) as usize;
        let g = g.create_label().create_label();
        let g = if self.negate {
            g.push(Op::Neg)
        } else {
            g
        };
        g.push_jump(label_hit, self.jump()).push(
            Op::LiteralCreate(LiteralValue::Integer(self.otherwise)),
        ).push_jump(label_next, Op::Jump(0)).label_here(label_hit).push(
            Op::LiteralCreate(LiteralValue::Integer(self.on_hit())),
        ).label_here(label_next)
    }

    /// Emits the decision.
    pub fn compile(&self, g: &mut CodeGenerator)
        requires
            self.otherwise == 0 || self.otherwise == 1,
        ensures
            final(g)@ == self.lowered(old(g)@),
            final(g)@.grows_from(old(g)@),
            old(g)@.wf() ==> final(g)@.wf(),
    {
        let label_hit = g.create_label();
        let label_next = g.create_label();
        if self.negate {
            g.push(Op::Neg);
        }
        if self.on_zero {
            g.push_jump(label_hit, Op::JumpZero(0));
        } else {
            g.push_jump(label_hit, Op::JumpNeg(0));
        }
        g.push(Op::LiteralCreate(LiteralValue::Integer(self.otherwise)));
        g.push_jump(label_next, Op::Jump(0));
        g.label_here(label_hit);
        let hit: i64 = if self.otherwise == 0 {
            1
        } else {
            0
        };
        g.push(Op::LiteralCreate(LiteralValue::Integer(hit)));
        g.label_here(label_next);
    }
}

impl BinaryOpType {
    /// The instruction of an operator that is one instruction.
    pub open spec fn plain_op(self) -> Option<Op> {
        match self {
            BinaryOpType::Add => Some(Op::Add),
            BinaryOpType::Sub => Some(Op::Sub),
            BinaryOpType::Mul => Some(Op::Mul),
            BinaryOpType::Div => Some(Op::Div),
            BinaryOpType::Rem => Some(Op::Rem),
            BinaryOpType::Shl => Some(Op::Shl),
            BinaryOpType::Shr => Some(Op::Shr),
            BinaryOpType::And => Some(Op::And),
            BinaryOpType::Or => Some(Op::Or),
            BinaryOpType::Xor => Some(Op::Xor),
            BinaryOpType::Identity => Some(Op::Cmp),
            _ => None,
        }
    }

    /// How a comparison decides on the sign that `Cmp` leaves: `a > b` holds
    /// where the flipped sign is negative, `a >= b` fails where the sign is
    /// negative, and so on.
    pub open spec fn decision(self) -> Option<Decision> {
        match self {
            BinaryOpType::Equal => Some(Decision { negate: false, on_zero: true, otherwise: 0 }),
            BinaryOpType::NotEqual => Some(
                Decision { negate: false, on_zero: true, otherwise: 1 },
            ),
            BinaryOpType::Greater => Some(Decision { negate: true, on_zero: false, otherwise: 0 }),
            BinaryOpType::GreaterOrEqual => Some(
                Decision { negate: false, on_zero: false, otherwise: 1 },
            ),
            BinaryOpType::Less => Some(Decision { negate: false, on_zero: false, otherwise: 0 }),
            BinaryOpType::LessOrEqual => Some(
                Decision { negate: true, on_zero: false, otherwise: 1 },
            ),
            _ => None,
        }
    }

    fn get_plain_op(&self) -> (r: Option<Op>)
        ensures
            r == self.plain_op(),
    {
        match self {
            BinaryOpType::Add => Some(Op::Add),
            BinaryOpType::Sub => Some(Op::Sub),
            BinaryOpType::Mul => Some(Op::Mul),
            BinaryOpType::Div => Some(Op::Div),
            BinaryOpType::Rem => Some(Op::Rem),
            BinaryOpType::Shl => Some(Op::Shl),
            BinaryOpType::Shr => Some(Op::Shr),
            BinaryOpType::And => Some(Op::And),
            BinaryOpType::Or => Some(Op::Or),
            BinaryOpType::Xor => Some(Op::Xor),
            BinaryOpType::Identity => Some(Op::Cmp),
            _ => None,
        }
    }

    fn get_decision(&self) -> (r: Option<Decision>)
        ensures
            r == self.decision(),
            r matches Some(d) ==> d.otherwise == 0 || d.otherwise == 1,
    {
        match self {
            BinaryOpType::Equal => Some(Decision { negate: false, on_zero: true, otherwise: 0 }),
            BinaryOpType::NotEqual => Some(
                Decision { negate: false, on_zero: true, otherwise: 1 },
            ),
            BinaryOpType::Greater => Some(Decision { negate: true, on_zero: false, otherwise: 0 }),
            BinaryOpType::GreaterOrEqual => Some(
                Decision { negate: false, on_zero: false, otherwise: 1 },
            ),
            BinaryOpType::Less => Some(Decision { negate: false, on_zero: false, otherwise: 0 }),
            BinaryOpType::LessOrEqual => Some(
                Decision { negate: true, on_zero: false, otherwise: 1 },
            ),
            _ => None,
        }
    }
}

impl BinaryOp {
    /// The state after the operator was lowered.
    ///
    /// * A plain operator: both operands, then its instruction. `Identity`
    ///   is the plain operator of `Cmp`.
    /// * A comparison: both operands, `Cmp`, then its decision. `Cmp` leaves
    ///   `0` for equal numbers and for the same container, so `Equal` holds
    ///   of a container and itself, and of no two containers.
    /// * `LogicAnd`: the left operand; if it is zero the result is `0` and
    ///   the right operand is not evaluated; else the right operand, whose
    ///   truth is the result.
    /// * `LogicOr`: the left operand; unless it is zero the result is `1` and
    ///   the right operand is not evaluated; else the right operand, whose
    ///   truth is the result.
    pub open spec fn lowered(&self, g: GenView) -> GenView
        decreases self,
    {
        match self.op_type {
            BinaryOpType::LogicAnd => {
                let label_false = g.next_label();
                let label_next = (g.labels.len() + 1) as usize;
                let g = g.create_label().create_label();
                let g = self.lhs.lowered(g).push_jump(label_false, Op::JumpZero(0));
                let g = self.rhs.lowered(g).push_jump(label_false, Op::JumpZero(0));
                g.push(Op::LiteralCreate(LiteralValue::Integer(1))).push_jump(
                    label_next,
                    Op::Jump(0),
                ).label_here(label_false).push(
                    Op::LiteralCreate(LiteralValue::Integer(0)),
                ).label_here(label_next)
            },
            BinaryOpType::LogicOr => {
                let label_rhs = g.next_label();
                let label_true = (g.labels.len() + 1) as usize;
                let label_false = (g.labels.len() + 2) as usize;
                let label_next = (g.labels.len() + 3) as usize;
                let g = g.create_label().create_label().create_label().create_label();
                let g = self.lhs.lowered(g).push_jump(label_rhs, Op::JumpZero(0)).push_jump(
                    label_true,
                    Op::Jump(0),
                ).label_here(label_rhs);
                let g = self.rhs.lowered(g).push_jump(label_false, Op::JumpZero(0)).label_here(
                    label_true,
                );
                g.push(Op::LiteralCreate(LiteralValue::Integer(1))).push_jump(
                    label_next,
                    Op::Jump(0),
                ).label_here(label_false).push(
                    Op::LiteralCreate(LiteralValue::Integer(0)),
                ).label_here(label_next)
            },
            _ => {
                let g = self.rhs.lowered(self.lhs.lowered(g));
                match self.op_type.plain_op() {
                    Some(op) => g.push(op),
                    None => match self.op_type.decision() {
                        Some(d) => d.lowered(g.push(Op::Cmp)),
                        None => g,
                    },
                }
            },
        }
    }

    /// Emits the operator with its operands.
    pub fn compile(&self, g: &mut CodeGenerator)
        requires
            self.lhs.compilable(old(g)@.vars),
            self.rhs.compilable(old(g)@.vars),
        ensures
            final(g)@ == self.lowered(old(g)@),
            final(g)@.grows_from(old(g)@),
            old(g)@.wf() ==> final(g)@.wf(),
        decreases self,
    {
        match self.op_type {
            BinaryOpType::LogicAnd => {
                let label_false = g.create_label();
                let label_next = g.create_label();
                let ghost g0 = g@;
                self.lhs.compile(g);
                g.push_jump(label_false, Op::JumpZero(0));
                let ghost g1 = g@;
                self.rhs.compile(g);
                g.push_jump(label_false, Op::JumpZero(0));
                g.push(Op::LiteralCreate(LiteralValue::Integer(1)));
                g.push_jump(label_next, Op::Jump(0));
                g.label_here(label_false);
                g.push(Op::LiteralCreate(LiteralValue::Integer(0)));
                g.label_here(label_next);
            },
            BinaryOpType::LogicOr => {
                let label_rhs = g.create_label();
                let label_true = g.create_label();
                let label_false = g.create_label();
                let label_next = g.create_label();
                self.lhs.compile(g);
                g.push_jump(label_rhs, Op::JumpZero(0));
                g.push_jump(label_true, Op::Jump(0));
                g.label_here(label_rhs);
                self.rhs.compile(g);
                g.push_jump(label_false, Op::JumpZero(0));
                g.label_here(label_true);
                g.push(Op::LiteralCreate(LiteralValue::Integer(1)));
                g.push_jump(label_next, Op::Jump(0));
                g.label_here(label_false);
                g.push(Op::LiteralCreate(LiteralValue::Integer(0)));
                g.label_here(label_next);
            },
            _ => {
                self.lhs.compile(g);
                let ghost mid = g@;
                self.rhs.compile(g);
                proof {
                    lemma_grows_transitive(old(g)@, mid, g@);
                }
                let ghost mid = g@;
                match self.op_type.get_plain_op() {
                    Some(op) => g.push(op),
                    None => {
                        let d = self.op_type.get_decision().unwrap();
                        g.push(Op::Cmp);
                        d.compile(g);
                    },
                }
                proof {
                    lemma_grows_transitive(old(g)@, mid, g@);
                }
            },
        }
    }
}

} // verus!
