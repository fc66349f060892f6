//! What lowered expressions compute on integers, and in how many steps.
//!
//! An expression that is built from integer literals and the operators on
//! integers stands for an integer. This module states that integer, and
//! proves that the machine, running the instructions to which the expression
//! was lowered, puts exactly that integer on the stack, after a number of
//! instructions that it states too, and changes nothing else.
//!
//! The module `evaluation` does without the count and takes in every kind of
//! value.

use vstd::prelude::*;
use crate::bytecode::ops::bits::Bitwise;
use crate::bytecode::ops::compare::sign_of;
use crate::bytecode::ops::num::Arith;
use crate::bytecode::{ActionView, Effect, LiteralValue, Op, Operation};
use crate::callstack::CallStackView;
use crate::callframe::{jumped, FrameView};
use crate::datamodel::{HeapView, Value};
use crate::vm::{processed, ran, with_top, StateView};
use super::binaryop::{BinaryOpType, Decision};
use super::function::Function;
use super::scope::{
    analysed, block_no_drops, drops_for, outer_all, outer_for, scan_block, spliced, Tally,
};
use super::statement::{block_lowered, block_ok, block_view, StmtV};
use super::codegen::{GenView, Var};
use super::expr::Expr;
use super::unaryop::UnaryOpType;

verus! {

/// A frame and an arena.
pub struct Running {
    pub frame: FrameView,
    pub heap: HeapView,
}

/// The frame after one instruction that keeps the machine in the frame: one
/// that asks for nothing, or a jump.
pub open spec fn advanced(r: Running) -> Option<Running> {
    let s = r.frame.step(r.heap);
    match s.result {
        Ok(ActionView::Next) => Some(Running { frame: s.frame, heap: s.heap }),
        Ok(ActionView::Jump(d)) => Some(
            Running {
                frame: FrameView { cursor: jumped(s.frame.cursor, d), ..s.frame },
                heap: s.heap,
            },
        ),
        _ => None,
    }
}

/// The frame after `n` such instructions.
pub open spec fn advanced_by(r: Running, n: nat) -> Option<Running>
    decreases n,
{
    if n == 0 {
        Some(r)
    } else {
        match advanced(r) {
            Some(next) => advanced_by(next, (n - 1) as nat),
            None => None,
        }
    }
}

/// Running `n` and then `m` instructions is running `n + m`.
pub proof fn lemma_advanced_by_sum(r: Running, n: nat, m: nat)
    ensures
        advanced_by(r, n + m) == (match advanced_by(r, n) {
            Some(mid) => advanced_by(mid, m),
            None => None,
        }),
    decreases n,
{
    if n > 0 {
        match advanced(r) {
            Some(next) => {
                lemma_advanced_by_sum(next, (n - 1) as nat, m);
            },
            None => {},
        }
    }
}

impl GenView {
    /// Whether this state has kept everything that state `before` had: the
    /// instructions, the labels that were placed, and the jumps that were
    /// recorded.
    pub open spec fn keeps(self, before: GenView) -> bool {
        &&& before.ops.len() <= self.ops.len()
        &&& forall|i: int| 0 <= i < before.ops.len() ==> self.ops[i] == before.ops[i]
        &&& before.labels.len() <= self.labels.len()
        &&& forall|l: int|
            0 <= l < before.labels.len() && (#[trigger] before.labels[l]).target is Some
                ==> self.labels[l].target == before.labels[l].target
        &&& forall|l: int|
            0 <= l < before.labels.len() ==> (#[trigger] before.labels[l]).jumps.len()
                <= self.labels[l].jumps.len()
        &&& forall|l: int, k: int|
            0 <= l < before.labels.len() && 0 <= k < before.labels[l].jumps.len()
                ==> self.labels[l].jumps[k] == #[trigger] before.labels[l].jumps[k]
    }
}

/// Keeping is transitive.
pub proof fn lemma_keeps_transitive(a: GenView, b: GenView, c: GenView)
    requires
        b.keeps(a),
        c.keeps(b),
    ensures
        c.keeps(a),
{
    assert forall|l: int|
        0 <= l < a.labels.len() && (#[trigger] a.labels[l]).target is Some implies c.labels[l].target
        == a.labels[l].target by {
        assert(b.labels[l].target == a.labels[l].target);
    }
    assert forall|l: int| 0 <= l < a.labels.len() implies (#[trigger] a.labels[l]).jumps.len()
        <= c.labels[l].jumps.len() by {
        assert(b.labels[l].jumps.len() <= c.labels[l].jumps.len());
    }
    assert forall|l: int, k: int|
        0 <= l < a.labels.len() && 0 <= k < a.labels[l].jumps.len() implies c.labels[l].jumps[k]
        == #[trigger] a.labels[l].jumps[k] by {
        assert(b.labels[l].jumps[k] == a.labels[l].jumps[k]);
    }
}

/// How a decision turns an integer into `0` or `1`.
pub open spec fn decided(d: Decision, x: i64) -> i64 {
    let tested = if d.negate {
        0i64.wrapping_sub(x)
    } else {
        x
    };
    let hit = if d.on_zero {
        tested == 0
    } else {
        tested < 0
    };
    if hit {
        d.on_hit()
    } else {
        d.otherwise
    }
}

/// How many instructions a decision takes on an integer.
pub open spec fn decision_cost(d: Decision, x: i64) -> nat {
    let tested = if d.negate {
        0i64.wrapping_sub(x)
    } else {
        x
    };
    let hit = if d.on_zero {
        tested == 0
    } else {
        tested < 0
    };
    ((if d.negate { 1int } else { 0int }) + (if hit { 2int } else { 3int })) as nat
}

/// `1` for an integer that is not zero, and `0` for zero.
pub open spec fn truth_of(x: i64) -> i64 {
    if x == 0 {
        0
    } else {
        1
    }
}

/// What the variables of an expression hold: the slot of each variable that
/// is bound, and the values in the local slots of the frame.
pub struct Env {
    pub vars: Map<Var, u8>,
    pub locals: Seq<Value>,
}

impl Env {
    /// The integer that a variable holds, if it is bound to a slot that
    /// holds one.
    pub open spec fn integer(self, var: Var) -> Option<i64> {
        if self.vars.contains_key(var) && self.vars[var] < self.locals.len() {
            match self.locals[self.vars[var] as int] {
                Value::Integer(i) => Some(i),
                _ => None,
            }
        } else {
            None
        }
    }
}

/// What a plain operator makes of two integers, where it has a result. The
/// arithmetic operators wrap round; `Div` and `Rem` have no result where the
/// right side is zero or the quotient does not fit; `Identity` gives the sign
/// of the order.
pub open spec fn plain_result(t: BinaryOpType, x: i64, y: i64) -> Option<i64> {
    match t {
        BinaryOpType::Add => Arith::Add.on_integers(x, y),
        BinaryOpType::Sub => Arith::Sub.on_integers(x, y),
        BinaryOpType::Mul => Arith::Mul.on_integers(x, y),
        BinaryOpType::Div => Arith::Div.on_integers(x, y),
        BinaryOpType::Rem => Arith::Rem.on_integers(x, y),
        BinaryOpType::Shl => Some(Bitwise::Shl.on_integers(x, y)),
        BinaryOpType::Shr => Some(Bitwise::Shr.on_integers(x, y)),
        BinaryOpType::And => Some(Bitwise::And.on_integers(x, y)),
        BinaryOpType::Or => Some(Bitwise::Or.on_integers(x, y)),
        BinaryOpType::Xor => Some(Bitwise::Xor.on_integers(x, y)),
        BinaryOpType::Identity => Some(sign_of(x, y)),
        _ => None,
    }
}

/// What a comparison makes of two integers: `1` where it holds and `0` where
/// it does not.
pub open spec fn comparison_result(t: BinaryOpType, x: i64, y: i64) -> Option<i64> {
    match t {
        BinaryOpType::Equal => Some(if x == y { 1i64 } else { 0i64 }),
        BinaryOpType::NotEqual => Some(if x != y { 1i64 } else { 0i64 }),
        BinaryOpType::Greater => Some(if x > y { 1i64 } else { 0i64 }),
        BinaryOpType::GreaterOrEqual => Some(if x >= y { 1i64 } else { 0i64 }),
        BinaryOpType::Less => Some(if x < y { 1i64 } else { 0i64 }),
        BinaryOpType::LessOrEqual => Some(if x <= y { 1i64 } else { 0i64 }),
        _ => None,
    }
}

/// What a plain operator makes of one integer.
pub open spec fn unary_result(t: UnaryOpType, x: i64) -> Option<i64> {
    match t {
        UnaryOpType::Neg => Some(0i64.wrapping_sub(x)),
        UnaryOpType::Not => Some(!x),
        _ => None,
    }
}

/// The integer for which an expression stands where its variables hold what
/// `env` says, if it is built from integer literals, variables that hold
/// integers and the operators on integers, and if no division in it that is
/// evaluated lacks a result.
///
/// * A variable gives the integer in its slot.
/// * A plain operator gives what `plain_result` or `unary_result` says, and
///   a comparison what `comparison_result` says.
/// * `LogicNot` gives `1` for zero and `0` for anything else.
/// * `LogicAnd` gives `0` where its left side is zero, without evaluating
///   its right side; else it gives the truth of its right side. `LogicOr`
///   gives `1` where its left side is not zero, without evaluating its right
///   side; else it gives the truth of its right side.
pub open spec fn denotes(e: Expr, env: Env) -> Option<i64>
    decreases e,
{
    match e {
        Expr::LiteralValue(l) => match l.inner {
            LiteralValue::Integer(i) => Some(i),
            _ => None,
        },
        Expr::Var(v) => env.integer(v.inner),
        Expr::BinaryOp(b) => match denotes(*b.lhs, env) {
            None => None,
            Some(x) => match b.op_type {
                BinaryOpType::LogicAnd => if x == 0 {
                    Some(0)
                } else {
                    match denotes(*b.rhs, env) {
                        Some(y) => Some(truth_of(y)),
                        None => None,
                    }
                },
                BinaryOpType::LogicOr => if x != 0 {
                    Some(1)
                } else {
                    match denotes(*b.rhs, env) {
                        Some(y) => Some(truth_of(y)),
                        None => None,
                    }
                },
                _ => match denotes(*b.rhs, env) {
                    None => None,
                    Some(y) => if b.op_type.decision() is Some {
                        comparison_result(b.op_type, x, y)
                    } else {
                        plain_result(b.op_type, x, y)
                    },
                },
            },
        },
        Expr::UnaryOp(u) => match denotes(*u.expr, env) {
            None => None,
            Some(x) => match u.op_type {
                UnaryOpType::LogicNot => Some(if x == 0 { 1i64 } else { 0i64 }),
                _ => unary_result(u.op_type, x),
            },
        },
        _ => None,
    }
}

/// How many instructions the machine runs for an expression that stands for
/// an integer.
pub open spec fn cost(e: Expr, env: Env) -> nat
    decreases e,
{
    match e {
        Expr::LiteralValue(l) => 1,
        Expr::Var(v) => 1,
        Expr::BinaryOp(b) => {
            let x = denotes(*b.lhs, env)->0;
            let y = denotes(*b.rhs, env)->0;
            match b.op_type {
                BinaryOpType::LogicAnd => if x == 0 {
                    cost(*b.lhs, env) + 2
                } else {
                    cost(*b.lhs, env) + 1 + cost(*b.rhs, env) + (if y == 0 { 2nat } else { 3nat })
                },
                BinaryOpType::LogicOr => if x != 0 {
                    cost(*b.lhs, env) + 4
                } else {
                    cost(*b.lhs, env) + 1 + cost(*b.rhs, env) + (if y == 0 { 2nat } else { 3nat })
                },
                _ => match b.op_type.decision() {
                    Some(d) => cost(*b.lhs, env) + cost(*b.rhs, env) + 1 + decision_cost(d, sign_of(x, y)),
                    None => cost(*b.lhs, env) + cost(*b.rhs, env) + 1,
                },
            }
        },
        Expr::UnaryOp(u) => match u.op_type {
            UnaryOpType::LogicNot => cost(*u.expr, env) + decision_cost(
                super::unaryop::logic_not(),
                denotes(*u.expr, env)->0,
            ),
            _ => cost(*u.expr, env) + 1,
        },
        _ => 0,
    }
}

/// Giving up values that are no handles changes nothing.
pub proof fn lemma_release_numbers(heap: HeapView, pending: Seq<Value>)
    requires
        forall|i: int| 0 <= i < pending.len() ==> (#[trigger] pending[i]).strong_id() is None,
    ensures
        heap.released_all(pending) == heap,
    decreases pending.len(),
{
    if pending.len() > 0 {
        assert(pending[pending.len() - 1].strong_id() is None);
        lemma_release_numbers(heap, pending.drop_last());
    }
}

/// A finished instruction that is no jump is the instruction that was
/// emitted.
pub proof fn lemma_plain_at(fin: GenView, ops: Seq<Op>, p: int)
    requires
        fin.wf(),
        fin.finalizes_to(ops),
        0 <= p < fin.ops.len(),
        !fin.ops[p].is_jump(),
    ensures
        ops[p] == fin.ops[p],
{
    assert forall|l: int, k: int| !fin.jump_at(l, k, p) by {
        if fin.jump_at(l, k, p) {
            assert(fin.ops[fin.labels[l].jumps[k] as int].is_jump());
        }
    }
}

/// A finished jump carries the distance from itself to the place of its
/// label.
pub proof fn lemma_jump_at(fin: GenView, ops: Seq<Op>, l: int, k: int, p: int, target: int)
    requires
        fin.wf(),
        fin.can_finalize(),
        fin.finalizes_to(ops),
        0 <= l < fin.labels.len(),
        0 <= k < fin.labels[l].jumps.len(),
        fin.labels[l].jumps[k] == p,
        fin.labels[l].target == Some(target as usize),
        0 <= target <= usize::MAX,
    ensures
        ops[p] == fin.ops[p].with_dest((target - p) as i32),
        -0x8000_0000 <= target - p <= 0x7fff_ffff,
        0 <= p < fin.ops.len(),
        jumped((p + 1) as usize, (target - p) as i32) == target,
{
    let j = fin.labels[l].jumps[k];
    assert(fin.labels[l].target->0 <= fin.ops.len());
    assert(ops[j as int].dest() == fin.labels[l].target->0 - j);
}

/// How many instructions a decision is.
pub open spec fn decision_size(d: Decision) -> nat {
    if d.negate {
        5
    } else {
        4
    }
}

/// How many instructions an expression is lowered to.
pub open spec fn emitted(e: Expr) -> nat
    decreases e,
{
    match e {
        Expr::LiteralValue(_) => 1,
        Expr::Var(_) => 1,
        Expr::ModuleRef => 1,
        Expr::BinaryOp(b) => match b.op_type {
            BinaryOpType::LogicAnd => emitted(*b.lhs) + emitted(*b.rhs) + 5,
            BinaryOpType::LogicOr => emitted(*b.lhs) + emitted(*b.rhs) + 6,
            _ => match b.op_type.decision() {
                Some(d) => emitted(*b.lhs) + emitted(*b.rhs) + 1 + decision_size(d),
                None => emitted(*b.lhs) + emitted(*b.rhs) + 1,
            },
        },
        Expr::UnaryOp(u) => match u.op_type {
            UnaryOpType::LogicNot => emitted(*u.expr) + 4,
            _ => emitted(*u.expr) + 1,
        },
        Expr::Call { func, args } => emitted(*func) + all_emitted(args@) + 1,
        Expr::SeqIndex { seq, index } => emitted(*seq) + emitted(*index) + 1,
        Expr::SeqLen { seq } => emitted(*seq) + 1,
        Expr::SeqToList { seq } => emitted(*seq) + 1,
        Expr::TupleCreate(items) => all_emitted(items@) + 1,
        Expr::TupleFromList(e) => emitted(*e) + 1,
        Expr::TupleWeakRef(e) => emitted(*e) + 1,
        Expr::TupleWeakUpgrade(e) => emitted(*e) + 1,
        Expr::TableCreate(e) => emitted(*e) + 1,
        Expr::ListCreate(items) => all_emitted(items@) + 1,
        Expr::ListGetSlice { list, a, b } => emitted(*list) + emitted(*a) + emitted(*b) + 1,
        Expr::ListPop(e) => emitted(*e) + 1,
        Expr::BufferCreate(e) => emitted(*e) + 1,
        Expr::BufferGetSlice { buffer, a, b } => emitted(*buffer) + emitted(*a) + emitted(*b) + 1,
    }
}

/// How many instructions the expressions are lowered to.
pub open spec fn all_emitted(es: Seq<Expr>) -> nat
    decreases es,
{
    if es.len() == 0 {
        0
    } else {
        all_emitted(es.drop_last()) + emitted(es.last())
    }
}

/// How many labels the lowering of an expression makes.
pub open spec fn labelled(e: Expr) -> nat
    decreases e,
{
    match e {
        Expr::BinaryOp(b) => match b.op_type {
            BinaryOpType::LogicAnd => labelled(*b.lhs) + labelled(*b.rhs) + 2,
            BinaryOpType::LogicOr => labelled(*b.lhs) + labelled(*b.rhs) + 4,
            _ => match b.op_type.decision() {
                Some(d) => labelled(*b.lhs) + labelled(*b.rhs) + 2,
                None => labelled(*b.lhs) + labelled(*b.rhs),
            },
        },
        Expr::UnaryOp(u) => match u.op_type {
            UnaryOpType::LogicNot => labelled(*u.expr) + 2,
            _ => labelled(*u.expr),
        },
        Expr::Call { func, args } => labelled(*func) + all_labelled(args@),
        Expr::SeqIndex { seq, index } => labelled(*seq) + labelled(*index),
        Expr::SeqLen { seq } => labelled(*seq),
        Expr::SeqToList { seq } => labelled(*seq),
        Expr::TupleCreate(items) => all_labelled(items@),
        Expr::TupleFromList(e) => labelled(*e),
        Expr::TupleWeakRef(e) => labelled(*e),
        Expr::TupleWeakUpgrade(e) => labelled(*e),
        Expr::TableCreate(e) => labelled(*e),
        Expr::ListCreate(items) => all_labelled(items@),
        Expr::ListGetSlice { list, a, b } => labelled(*list) + labelled(*a) + labelled(*b),
        Expr::ListPop(e) => labelled(*e),
        Expr::BufferCreate(e) => labelled(*e),
        Expr::BufferGetSlice { buffer, a, b } => labelled(*buffer) + labelled(*a) + labelled(*b),
        _ => 0,
    }
}

/// How many labels the lowering of the expressions makes.
pub open spec fn all_labelled(es: Seq<Expr>) -> nat
    decreases es,
{
    if es.len() == 0 {
        0
    } else {
        all_labelled(es.drop_last()) + labelled(es.last())
    }
}

impl GenView {
    /// Whether this state has room for so many more instructions and labels.
    pub open spec fn has_room(self, ops: nat, labels: nat) -> bool {
        self.ops.len() + ops <= usize::MAX && self.labels.len() + labels <= usize::MAX
    }

    /// Whether this state comes from `before` by emitting so many
    /// instructions and making so many labels, all of them placed, and
    /// leaving everything else as it was.
    pub open spec fn grown_by(self, before: GenView, ops: nat, labels: nat) -> bool {
        &&& self.grows_from(before)
        &&& self.ops.len() == before.ops.len() + ops
        &&& self.labels.len() == before.labels.len() + labels
    }
}

/// The shape of a lowered decision: four or five instructions and two
/// labels.
pub proof fn lemma_decision_shape(d: Decision, g: GenView)
    requires
        g.has_room(decision_size(d), 2),
    ensures
        d.lowered(g).grown_by(g, decision_size(d), 2),
{
}

/// The instructions that close a `LogicAnd` or a `LogicOr`: a jump to
/// `label_false` if the value on the stack is zero, `1`, a jump to
/// `label_next`, then at `label_false` a `0`, then `label_next`.
pub open spec fn truth_tail(g: GenView, label_false: usize, label_next: usize) -> GenView {
    g.push_jump(label_false, Op::JumpZero(0)).push(
        Op::LiteralCreate(LiteralValue::Integer(1)),
    ).push_jump(label_next, Op::Jump(0)).label_here(label_false).push(
        Op::LiteralCreate(LiteralValue::Integer(0)),
    ).label_here(label_next)
}

/// The state in which the right side of a `LogicAnd` is lowered.
pub open spec fn and_middle(g: GenView, a: GenView) -> GenView {
    a.push_jump(g.next_label(), Op::JumpZero(0))
}

/// The state in which the right side of a `LogicOr` is lowered.
pub open spec fn or_middle(g: GenView, a: GenView) -> GenView {
    a.push_jump(g.next_label(), Op::JumpZero(0)).push_jump(
        (g.labels.len() + 1) as usize,
        Op::Jump(0),
    ).label_here(g.next_label())
}

/// The state after a `LogicOr` whose right side was lowered to `b`.
pub open spec fn or_end(g: GenView, b: GenView) -> GenView {
    let label_true = (g.labels.len() + 1) as usize;
    let label_false = (g.labels.len() + 2) as usize;
    let label_next = (g.labels.len() + 3) as usize;
    b.push_jump(label_false, Op::JumpZero(0)).label_here(label_true).push(
        Op::LiteralCreate(LiteralValue::Integer(1)),
    ).push_jump(label_next, Op::Jump(0)).label_here(label_false).push(
        Op::LiteralCreate(LiteralValue::Integer(0)),
    ).label_here(label_next)
}

/// The shape of a lowered `LogicAnd`, from the shapes of its sides.
#[verifier::rlimit(50)]
pub proof fn lemma_and_shape(g: GenView, a: GenView, b: GenView, na: nat, la: nat, nb: nat, lb: nat)
    requires
        g.has_room(na + nb + 5, la + lb + 2),
        a.grown_by(g.create_label().create_label(), na, la),
        b.grown_by(and_middle(g, a), nb, lb),
    ensures
        truth_tail(b, g.next_label(), (g.labels.len() + 1) as usize).grown_by(
            g,
            na + nb + 5,
            la + lb + 2,
        ),
{
    let g0 = g.create_label().create_label();
    let m = and_middle(g, a);
    let out = truth_tail(b, g.next_label(), (g.labels.len() + 1) as usize);
    let f = g.labels.len() as int;
    assert(m.labels.len() == a.labels.len());
    assert forall|i: int| 0 <= i < g.labels.len() implies out.labels[i] == g.labels[i] by {
        assert(a.labels[i] == g0.labels[i]);
        assert(b.labels[i] == m.labels[i]);
    }
    assert forall|i: int| 0 <= i < g.ops.len() implies out.ops[i] == g.ops[i] by {
        assert(a.ops[i] == g0.ops[i]);
        assert(b.ops[i] == m.ops[i]);
    }
    assert forall|i: int| g.labels.len() <= i < out.labels.len() implies (#[trigger] out.labels[i]).target
        is Some by {
        if i >= m.labels.len() {
            assert(b.labels[i].target is Some);
        } else if i >= g0.labels.len() {
            assert(a.labels[i].target is Some);
            assert(b.labels[i] == m.labels[i]);
        }
    }
}

/// The shape of a lowered `LogicOr`, from the shapes of its sides.
#[verifier::rlimit(50)]
pub proof fn lemma_or_shape(g: GenView, a: GenView, b: GenView, na: nat, la: nat, nb: nat, lb: nat)
    requires
        g.has_room(na + nb + 6, la + lb + 4),
        a.grown_by(g.create_label().create_label().create_label().create_label(), na, la),
        b.grown_by(or_middle(g, a), nb, lb),
    ensures
        or_end(g, b).grown_by(g, na + nb + 6, la + lb + 4),
{
    let g0 = g.create_label().create_label().create_label().create_label();
    let m = or_middle(g, a);
    let out = or_end(g, b);
    assert(m.labels.len() == a.labels.len());
    assert forall|i: int| 0 <= i < g.labels.len() implies out.labels[i] == g.labels[i] by {
        assert(a.labels[i] == g0.labels[i]);
        assert(b.labels[i] == m.labels[i]);
    }
    assert forall|i: int| 0 <= i < g.ops.len() implies out.ops[i] == g.ops[i] by {
        assert(a.ops[i] == g0.ops[i]);
        assert(b.ops[i] == m.ops[i]);
    }
    assert forall|i: int| g.labels.len() <= i < out.labels.len() implies (#[trigger] out.labels[i]).target
        is Some by {
        if i >= m.labels.len() {
            assert(b.labels[i].target is Some);
        } else if i >= g0.labels.len() {
            assert(a.labels[i].target is Some);
            assert(b.labels[i] == m.labels[i]);
        } else {
            assert(b.labels[i] == m.labels[i]);
        }
    }
}

/// The shape of two expressions lowered one after the other, from their
/// shapes.
pub proof fn lemma_pair_shape(g: GenView, a: GenView, b: GenView, na: nat, la: nat, nb: nat, lb: nat)
    requires
        a.grown_by(g, na, la),
        b.grown_by(a, nb, lb),
    ensures
        b.grown_by(g, na + nb, la + lb),
{
    assert forall|i: int| 0 <= i < g.labels.len() implies b.labels[i] == g.labels[i] by {
        assert(b.labels[i] == a.labels[i]);
    }
    assert forall|i: int| 0 <= i < g.ops.len() implies b.ops[i] == g.ops[i] by {
        assert(b.ops[i] == a.ops[i]);
    }
    assert forall|i: int| g.labels.len() <= i < b.labels.len() implies (#[trigger] b.labels[i]).target
        is Some by {
        if i < a.labels.len() {
            assert(a.labels[i].target is Some);
            assert(b.labels[i] == a.labels[i]);
        }
    }
}

/// The shape of a lowered expression: it adds the instructions and the
/// labels of the expression, places every label that it makes, and leaves
/// everything else as it was.
#[verifier::rlimit(50)]
pub proof fn lemma_lowered_shape(e: Expr, g: GenView)
    requires
        g.has_room(emitted(e), labelled(e)),
    ensures
        e.lowered(g).grown_by(g, emitted(e), labelled(e)),
    decreases e, 0nat,
{
    match e {
        Expr::BinaryOp(b) => {
            match b.op_type {
                BinaryOpType::LogicAnd => {
                    let g0 = g.create_label().create_label();
                    lemma_lowered_shape(*b.lhs, g0);
                    let a = b.lhs.lowered(g0);
                    let g1 = and_middle(g, a);
                    lemma_lowered_shape(*b.rhs, g1);
                    lemma_and_shape(
                        g,
                        a,
                        b.rhs.lowered(g1),
                        emitted(*b.lhs),
                        labelled(*b.lhs),
                        emitted(*b.rhs),
                        labelled(*b.rhs),
                    );
                    assert(e.lowered(g) == b.lowered(g));
                    assert(b.lowered(g) == truth_tail(
                        b.rhs.lowered(g1),
                        g.next_label(),
                        (g.labels.len() + 1) as usize,
                    ));
                },
                BinaryOpType::LogicOr => {
                    let g0 = g.create_label().create_label().create_label().create_label();
                    lemma_lowered_shape(*b.lhs, g0);
                    let a = b.lhs.lowered(g0);
                    let g1 = or_middle(g, a);
                    lemma_lowered_shape(*b.rhs, g1);
                    lemma_or_shape(
                        g,
                        a,
                        b.rhs.lowered(g1),
                        emitted(*b.lhs),
                        labelled(*b.lhs),
                        emitted(*b.rhs),
                        labelled(*b.rhs),
                    );
                    assert(e.lowered(g) == b.lowered(g));
                    assert(b.lowered(g) == or_end(g, b.rhs.lowered(g1)));
                },
                _ => {
                    lemma_lowered_shape(*b.lhs, g);
                    let g1 = b.lhs.lowered(g);
                    lemma_lowered_shape(*b.rhs, g1);
                    let g2 = b.rhs.lowered(g1);
                    lemma_pair_shape(
                        g,
                        g1,
                        g2,
                        emitted(*b.lhs),
                        labelled(*b.lhs),
                        emitted(*b.rhs),
                        labelled(*b.rhs),
                    );
                    match b.op_type.decision() {
                        Some(d) => {
                            let g3 = g2.push(Op::Cmp);
                            assert(g3.grown_by(g2, 1, 0));
                            lemma_decision_shape(d, g3);
                            lemma_pair_shape(g2, g3, d.lowered(g3), 1, 0, decision_size(d), 2);
                            lemma_pair_shape(
                                g,
                                g2,
                                d.lowered(g3),
                                emitted(*b.lhs) + emitted(*b.rhs),
                                labelled(*b.lhs) + labelled(*b.rhs),
                                1 + decision_size(d),
                                2,
                            );
                            assert(b.lowered(g) == d.lowered(g3));
                        },
                        None => {
                            let op = b.op_type.plain_op()->0;
                            assert(b.lowered(g) == g2.push(op));
                            lemma_push_shape(
                                g,
                                g2,
                                op,
                                emitted(*b.lhs) + emitted(*b.rhs),
                                labelled(*b.lhs) + labelled(*b.rhs),
                            );
                        },
                    }
                    assert(e.lowered(g) == b.lowered(g));
                },
            }
        },
        Expr::UnaryOp(u) => {
            lemma_lowered_shape(*u.expr, g);
            let g1 = u.expr.lowered(g);
            assert(e.lowered(g) == u.lowered(g));
            match u.op_type {
                UnaryOpType::LogicNot => {
                    let d = super::unaryop::logic_not();
                    lemma_decision_shape(d, g1);
                    lemma_pair_shape(g, g1, d.lowered(g1), emitted(*u.expr), labelled(*u.expr), 4, 2);
                },
                _ => {
                    let op = u.op_type.plain_op()->0;
                    assert(u.lowered(g) == g1.push(op));
                    assert(g1.push(op).grown_by(g1, 1, 0));
                    lemma_pair_shape(g, g1, g1.push(op), emitted(*u.expr), labelled(*u.expr), 1, 0);
                },
            }
        },
        Expr::Call { func, args } => {
            lemma_lowered_shape(*func, g);
            let g1 = func.lowered(g);
            lemma_all_lowered_shape(args@, g1);
            let g2 = super::expr::all_lowered(args@, g1);
            lemma_pair_shape(g, g1, g2, emitted(*func), labelled(*func), all_emitted(args@), all_labelled(args@));
            lemma_push_shape(g, g2, Op::Call(args@.len() as u8), emitted(*func) + all_emitted(args@), labelled(e));
        },
        Expr::SeqIndex { seq, index } => {
            lemma_lowered_shape(*seq, g);
            let g1 = seq.lowered(g);
            lemma_lowered_shape(*index, g1);
            let g2 = index.lowered(g1);
            lemma_pair_shape(g, g1, g2, emitted(*seq), labelled(*seq), emitted(*index), labelled(*index));
            lemma_push_shape(g, g2, Op::SeqGet, emitted(*seq) + emitted(*index), labelled(e));
        },
        Expr::SeqLen { seq } => {
            lemma_lowered_shape(*seq, g);
            lemma_push_shape(g, seq.lowered(g), Op::SeqLen, emitted(*seq), labelled(e));
        },
        Expr::SeqToList { seq } => {
            lemma_lowered_shape(*seq, g);
            lemma_push_shape(g, seq.lowered(g), Op::SeqToList, emitted(*seq), labelled(e));
        },
        Expr::TupleCreate(items) => {
            lemma_all_lowered_shape(items@, g);
            lemma_push_shape(
                g,
                super::expr::all_lowered(items@, g),
                Op::TupleCreate(items@.len() as u8),
                all_emitted(items@),
                labelled(e),
            );
        },
        Expr::TupleFromList(x) => {
            lemma_lowered_shape(*x, g);
            lemma_push_shape(g, x.lowered(g), Op::TupleFromList, emitted(*x), labelled(e));
        },
        Expr::TupleWeakRef(x) => {
            lemma_lowered_shape(*x, g);
            lemma_push_shape(g, x.lowered(g), Op::TupleWeakRef, emitted(*x), labelled(e));
        },
        Expr::TupleWeakUpgrade(x) => {
            lemma_lowered_shape(*x, g);
            lemma_push_shape(g, x.lowered(g), Op::TupleWeakUpgrade, emitted(*x), labelled(e));
        },
        Expr::TableCreate(x) => {
            lemma_lowered_shape(*x, g);
            lemma_push_shape(g, x.lowered(g), Op::TableCreate, emitted(*x), labelled(e));
        },
        Expr::ListCreate(items) => {
            lemma_all_lowered_shape(items@, g);
            lemma_push_shape(
                g,
                super::expr::all_lowered(items@, g),
                Op::ListCreate(items@.len() as u8),
                all_emitted(items@),
                labelled(e),
            );
        },
        Expr::ListGetSlice { list, a, b } => {
            lemma_lowered_shape(*list, g);
            let g1 = list.lowered(g);
            lemma_lowered_shape(*a, g1);
            let g2 = a.lowered(g1);
            lemma_lowered_shape(*b, g2);
            let g3 = b.lowered(g2);
            lemma_pair_shape(g, g1, g2, emitted(*list), labelled(*list), emitted(*a), labelled(*a));
            lemma_pair_shape(
                g,
                g2,
                g3,
                emitted(*list) + emitted(*a),
                labelled(*list) + labelled(*a),
                emitted(*b),
                labelled(*b),
            );
            lemma_push_shape(
                g,
                g3,
                Op::ListGetSlice,
                emitted(*list) + emitted(*a) + emitted(*b),
                labelled(e),
            );
        },
        Expr::ListPop(x) => {
            lemma_lowered_shape(*x, g);
            lemma_push_shape(g, x.lowered(g), Op::ListPop, emitted(*x), labelled(e));
        },
        Expr::BufferCreate(x) => {
            lemma_lowered_shape(*x, g);
            lemma_push_shape(g, x.lowered(g), Op::BufferCreate, emitted(*x), labelled(e));
        },
        Expr::BufferGetSlice { buffer, a, b } => {
            lemma_lowered_shape(*buffer, g);
            let g1 = buffer.lowered(g);
            lemma_lowered_shape(*a, g1);
            let g2 = a.lowered(g1);
            lemma_lowered_shape(*b, g2);
            let g3 = b.lowered(g2);
            lemma_pair_shape(g, g1, g2, emitted(*buffer), labelled(*buffer), emitted(*a), labelled(*a));
            lemma_pair_shape(
                g,
                g2,
                g3,
                emitted(*buffer) + emitted(*a),
                labelled(*buffer) + labelled(*a),
                emitted(*b),
                labelled(*b),
            );
            lemma_push_shape(
                g,
                g3,
                Op::BufferGetSlice,
                emitted(*buffer) + emitted(*a) + emitted(*b),
                labelled(e),
            );
        },
        Expr::LiteralValue(l) => {
            lemma_push_shape(g, g, Op::LiteralCreate(l.inner), 0, 0);
        },
        Expr::Var(v) => {
            lemma_push_shape(g, g, Op::StackLoad(g.vars[v.inner]), 0, 0);
        },
        Expr::ModuleRef => {
            lemma_push_shape(g, g, Op::StackLoad(0), 0, 0);
        },
    }
}

/// The shape of a state with one more instruction.
pub proof fn lemma_push_shape(g: GenView, a: GenView, op: Op, n: nat, l: nat)
    requires
        a.grown_by(g, n, l),
    ensures
        a.push(op).grown_by(g, n + 1, l),
{
    assert(a.push(op).grown_by(a, 1, 0));
    lemma_pair_shape(g, a, a.push(op), n, l, 1, 0);
}

/// The shape of expressions that are lowered one after the other.
pub proof fn lemma_all_lowered_shape(es: Seq<Expr>, g: GenView)
    requires
        g.has_room(all_emitted(es), all_labelled(es)),
    ensures
        super::expr::all_lowered(es, g).grown_by(g, all_emitted(es), all_labelled(es)),
    decreases es, 1nat,
{
    if es.len() > 0 {
        lemma_all_lowered_shape(es.drop_last(), g);
        lemma_lowered_shape(es.last(), super::expr::all_lowered(es.drop_last(), g));
    }
}

/// Whether `ops` are the finished instructions of state `fin` and the frame
/// runs them.
pub open spec fn runs(fin: GenView, ops: Seq<Op>, r: Running) -> bool {
    &&& fin.wf()
    &&& fin.can_finalize()
    &&& fin.finalizes_to(ops)
    &&& r.heap.function(r.frame.function) is Some
    &&& (r.heap.function(r.frame.function)->0).1 == ops
}

/// The frame at another place, with another stack of operands.
pub open spec fn moved(r: Running, cursor: int, stack: Seq<Value>) -> Running {
    Running {
        frame: FrameView {
            cursor: cursor as usize,
            stack: CallStackView { stack, ..r.frame.stack },
            ..r.frame
        },
        heap: r.heap,
    }
}

/// What grows keeps.
pub proof fn lemma_grown_keeps(a: GenView, b: GenView)
    requires
        b.grows_from(a),
    ensures
        b.keeps(a),
{
    assert forall|l: int|
        0 <= l < a.labels.len() && (#[trigger] a.labels[l]).target is Some implies b.labels[l].target
        == a.labels[l].target by {
        assert(b.labels[l] == a.labels[l]);
    }
    assert forall|l: int| 0 <= l < a.labels.len() implies (#[trigger] a.labels[l]).jumps.len()
        <= b.labels[l].jumps.len() by {
        assert(b.labels[l] == a.labels[l]);
    }
    assert forall|l: int, k: int|
        0 <= l < a.labels.len() && 0 <= k < a.labels[l].jumps.len() implies b.labels[l].jumps[k]
        == #[trigger] a.labels[l].jumps[k] by {
        assert(b.labels[l] == a.labels[l]);
    }
}

/// One instruction that is no jump and that succeeds without asking for
/// anything moves the frame one place on.
pub proof fn lemma_step_plain(fin: GenView, ops: Seq<Op>, r: Running, op: Op, stack: Seq<Value>)
    requires
        runs(fin, ops, r),
        r.frame.cursor < fin.ops.len(),
        fin.ops[r.frame.cursor as int] == op,
        !op.is_jump(),
        op.effect(r.frame.stack, r.heap) == Effect::next(
            CallStackView { stack, ..r.frame.stack },
            r.heap,
        ),
    ensures
        advanced(r) == Some(moved(r, r.frame.cursor + 1, stack)),
        runs(fin, ops, moved(r, r.frame.cursor + 1, stack)),
{
    lemma_plain_at(fin, ops, r.frame.cursor as int);
}

/// A conditional jump on an integer moves the frame to the place of its
/// label if the integer passes the test, and one place on if not.
pub proof fn lemma_step_jump_if(
    fin: GenView,
    ops: Seq<Op>,
    r: Running,
    l: int,
    k: int,
    target: int,
    on_zero: bool,
    x: i64,
    rest: Seq<Value>,
)
    requires
        runs(fin, ops, r),
        0 <= l < fin.labels.len(),
        0 <= k < fin.labels[l].jumps.len(),
        fin.labels[l].jumps[k] == r.frame.cursor,
        fin.labels[l].target == Some(target as usize),
        0 <= target <= usize::MAX,
        fin.ops[r.frame.cursor as int] == (if on_zero {
            Op::JumpZero(0)
        } else {
            Op::JumpNeg(0)
        }),
        r.frame.stack.stack == rest.push(Value::Integer(x)),
    ensures
        advanced(r) == Some(
            moved(
                r,
                if (if on_zero {
                    x == 0
                } else {
                    x < 0
                }) {
                    target
                } else {
                    r.frame.cursor + 1
                },
                rest,
            ),
        ),
{
    let p = r.frame.cursor as int;
    lemma_jump_at(fin, ops, l, k, p, target);
    lemma_release_numbers(r.heap, seq![Value::Integer(x)]);
    assert(r.frame.stack.popped(1).stack =~= rest);
    assert(r.frame.stack.top(0) == Value::Integer(x));
}

/// A jump moves the frame to the place of its label.
pub proof fn lemma_step_jump(fin: GenView, ops: Seq<Op>, r: Running, l: int, k: int, target: int)
    requires
        runs(fin, ops, r),
        0 <= l < fin.labels.len(),
        0 <= k < fin.labels[l].jumps.len(),
        fin.labels[l].jumps[k] == r.frame.cursor,
        fin.labels[l].target == Some(target as usize),
        0 <= target <= usize::MAX,
        fin.ops[r.frame.cursor as int] == Op::Jump(0),
    ensures
        advanced(r) == Some(moved(r, target, r.frame.stack.stack)),
{
    let p = r.frame.cursor as int;
    lemma_jump_at(fin, ops, l, k, p, target);
}

/// A literal is pushed.
pub proof fn lemma_step_literal(fin: GenView, ops: Seq<Op>, r: Running, i: i64)
    requires
        runs(fin, ops, r),
        r.frame.cursor < fin.ops.len(),
        fin.ops[r.frame.cursor as int] == Op::LiteralCreate(LiteralValue::Integer(i)),
    ensures
        advanced(r) == Some(
            moved(r, r.frame.cursor + 1, r.frame.stack.stack.push(Value::Integer(i))),
        ),
{
    lemma_step_plain(
        fin,
        ops,
        r,
        Op::LiteralCreate(LiteralValue::Integer(i)),
        r.frame.stack.stack.push(Value::Integer(i)),
    );
}

/// Steps that follow one another add up.
pub proof fn lemma_then(r: Running, n: nat, mid: Running, last: Running)
    requires
        advanced_by(r, n) == Some(mid),
        advanced(mid) == Some(last),
    ensures
        advanced_by(r, n + 1) == Some(last),
{
    lemma_advanced_by_sum(r, n, 1);
    reveal_with_fuel(advanced_by, 2);
}

/// The machine runs a lowered decision on an integer and leaves `0` or `1`
/// as the decision says.
#[verifier::rlimit(50)]
pub proof fn lemma_decision_runs(
    d: Decision,
    g: GenView,
    fin: GenView,
    ops: Seq<Op>,
    r: Running,
    x: i64,
    rest: Seq<Value>,
)
    requires
        d.otherwise == 0 || d.otherwise == 1,
        g.has_room(decision_size(d), 2),
        runs(fin, ops, r),
        fin.keeps(d.lowered(g)),
        r.frame.cursor == g.ops.len(),
        r.frame.stack.stack == rest.push(Value::Integer(x)),
    ensures
        advanced_by(r, decision_cost(d, x)) == Some(
            moved(
                r,
                (g.ops.len() + decision_size(d)) as int,
                rest.push(Value::Integer(decided(d, x))),
            ),
        ),
{
    let low = d.lowered(g);
    let p0 = g.ops.len() as int;
    let hit_label = g.labels.len() as int;
    let next_label = (g.labels.len() + 1) as int;
    let tested = if d.negate {
        0i64.wrapping_sub(x)
    } else {
        x
    };
    let hit = if d.on_zero {
        tested == 0
    } else {
        tested < 0
    };
    let b = if d.negate {
        p0 + 1
    } else {
        p0
    };
    lemma_decision_shape(d, g);
    assert(low.ops.len() == p0 + decision_size(d));
    assert(low.labels[hit_label].target == Some((b + 3) as usize));
    assert(low.labels[hit_label].jumps =~= seq![b as usize]);
    assert(low.labels[next_label].target == Some((b + 4) as usize));
    assert(low.labels[next_label].jumps =~= seq![(b + 2) as usize]);
    assert(low.ops[b] == d.jump());
    assert(low.ops[b + 1] == Op::LiteralCreate(LiteralValue::Integer(d.otherwise)));
    assert(low.ops[b + 2] == Op::Jump(0));
    assert(low.ops[b + 3] == Op::LiteralCreate(LiteralValue::Integer(d.on_hit())));
    assert(fin.labels[hit_label].jumps[0] == low.labels[hit_label].jumps[0]);
    assert(fin.labels[next_label].jumps[0] == low.labels[next_label].jumps[0]);
    assert(fin.labels[hit_label].target == low.labels[hit_label].target);
    assert(fin.labels[next_label].target == low.labels[next_label].target);
    assert(advanced_by(r, 0) == Some(r));
    // The sign is flipped where the decision asks for it.
    let r1 = moved(r, b, rest.push(Value::Integer(tested)));
    let n1: nat = if d.negate {
        1
    } else {
        0
    };
    if d.negate {
        assert(low.ops[p0] == Op::Neg);
        assert(r.frame.stack.popped(1).stack =~= rest);
        assert(r.frame.stack.top(0) == Value::Integer(x));
        lemma_step_plain(fin, ops, r, Op::Neg, rest.push(Value::Integer(tested)));
        lemma_then(r, 0, r, r1);
    } else {
        assert(r1 == r);
    }
    assert(advanced_by(r, n1) == Some(r1));
    // The test.
    let r2 = moved(r, if hit { b + 3 } else { b + 1 }, rest);
    lemma_step_jump_if(fin, ops, r1, hit_label, 0, b + 3, d.on_zero, tested, rest);
    assert(advanced(r1) == Some(r2));
    lemma_then(r, n1, r1, r2);
    if hit {
        let r3 = moved(r, b + 4, rest.push(Value::Integer(d.on_hit())));
        lemma_step_literal(fin, ops, r2, d.on_hit());
        assert(advanced(r2) == Some(r3));
        lemma_then(r, n1 + 1, r2, r3);
    } else {
        let r3 = moved(r, b + 2, rest.push(Value::Integer(d.otherwise)));
        lemma_step_literal(fin, ops, r2, d.otherwise);
        assert(advanced(r2) == Some(r3));
        lemma_then(r, n1 + 1, r2, r3);
        let r4 = moved(r, b + 4, rest.push(Value::Integer(d.otherwise)));
        lemma_step_jump(fin, ops, r3, next_label, 0, b + 4);
        assert(advanced(r3) == Some(r4));
        lemma_then(r, n1 + 2, r3, r4);
    }
}

/// Steps that follow steps add up.
pub proof fn lemma_then_by(r: Running, n: nat, mid: Running, m: nat, last: Running)
    requires
        advanced_by(r, n) == Some(mid),
        advanced_by(mid, m) == Some(last),
    ensures
        advanced_by(r, n + m) == Some(last),
{
    lemma_advanced_by_sum(r, n, m);
}

/// The machine runs the instruction of a plain operator on two integers.
pub proof fn lemma_step_binary(
    fin: GenView,
    ops: Seq<Op>,
    r: Running,
    t: BinaryOpType,
    x: i64,
    y: i64,
    rest: Seq<Value>,
)
    requires
        runs(fin, ops, r),
        r.frame.cursor < fin.ops.len(),
        t.plain_op() is Some,
        fin.ops[r.frame.cursor as int] == t.plain_op()->0,
        plain_result(t, x, y) is Some,
        r.frame.stack.stack == rest.push(Value::Integer(x)).push(Value::Integer(y)),
    ensures
        advanced(r) == Some(
            moved(r, r.frame.cursor + 1, rest.push(Value::Integer(plain_result(t, x, y)->0))),
        ),
{
    let m = r.frame.stack;
    assert(m.top(0) == Value::Integer(y));
    assert(m.top(1) == Value::Integer(x));
    assert(m.popped(2).stack =~= rest);
    lemma_release_numbers(r.heap, seq![Value::Integer(x), Value::Integer(y)]);
    lemma_step_plain(
        fin,
        ops,
        r,
        t.plain_op()->0,
        rest.push(Value::Integer(plain_result(t, x, y)->0)),
    );
}

/// The machine runs `Cmp` on two integers.
pub proof fn lemma_step_compare(
    fin: GenView,
    ops: Seq<Op>,
    r: Running,
    x: i64,
    y: i64,
    rest: Seq<Value>,
)
    requires
        runs(fin, ops, r),
        r.frame.cursor < fin.ops.len(),
        fin.ops[r.frame.cursor as int] == Op::Cmp,
        r.frame.stack.stack == rest.push(Value::Integer(x)).push(Value::Integer(y)),
    ensures
        advanced(r) == Some(
            moved(r, r.frame.cursor + 1, rest.push(Value::Integer(sign_of(x, y)))),
        ),
{
    lemma_step_binary(fin, ops, r, BinaryOpType::Identity, x, y, rest);
}

/// The machine runs the instruction of a plain operator on one integer.
pub proof fn lemma_step_unary(
    fin: GenView,
    ops: Seq<Op>,
    r: Running,
    t: UnaryOpType,
    x: i64,
    rest: Seq<Value>,
)
    requires
        runs(fin, ops, r),
        r.frame.cursor < fin.ops.len(),
        unary_result(t, x) is Some,
        fin.ops[r.frame.cursor as int] == t.plain_op()->0,
        r.frame.stack.stack == rest.push(Value::Integer(x)),
    ensures
        advanced(r) == Some(
            moved(r, r.frame.cursor + 1, rest.push(Value::Integer(unary_result(t, x)->0))),
        ),
{
    let m = r.frame.stack;
    assert(m.top(0) == Value::Integer(x));
    assert(m.popped(1).stack =~= rest);
    lemma_step_plain(
        fin,
        ops,
        r,
        t.plain_op()->0,
        rest.push(Value::Integer(unary_result(t, x)->0)),
    );
}

/// What a comparison gives is what its decision makes of the sign.
pub proof fn lemma_comparison_decided(t: BinaryOpType, x: i64, y: i64)
    requires
        t.decision() is Some,
    ensures
        Some(decided(t.decision()->0, sign_of(x, y))) == comparison_result(t, x, y),
        t.decision()->0.otherwise == 0 || t.decision()->0.otherwise == 1,
{
}

/// Where the instructions and the labels of a `LogicAnd` stand.
pub struct AndLayout {
    /// The place of the jump behind the left side.
    pub left_end: int,
    /// The place of the jump behind the right side.
    pub right_end: int,
    pub label_false: int,
    pub label_next: int,
}

impl AndLayout {
    /// Whether the finished state has the instructions and the labels at
    /// these places.
    pub open spec fn laid_out(self, fin: GenView) -> bool {
        let pa = self.left_end;
        let pb = self.right_end;
        &&& 0 <= pa < pb
        &&& pb + 4 <= fin.ops.len()
        &&& 0 <= self.label_false < fin.labels.len()
        &&& 0 <= self.label_next < fin.labels.len()
        &&& fin.labels[self.label_false].jumps.len() >= 2
        &&& fin.labels[self.label_false].jumps[0] == pa
        &&& fin.labels[self.label_false].jumps[1] == pb
        &&& fin.labels[self.label_false].target == Some((pb + 3) as usize)
        &&& fin.labels[self.label_next].jumps.len() >= 1
        &&& fin.labels[self.label_next].jumps[0] == pb + 2
        &&& fin.labels[self.label_next].target == Some((pb + 4) as usize)
        &&& fin.ops[pa] == Op::JumpZero(0)
        &&& fin.ops[pb] == Op::JumpZero(0)
        &&& fin.ops[pb + 1] == Op::LiteralCreate(LiteralValue::Integer(1))
        &&& fin.ops[pb + 2] == Op::Jump(0)
        &&& fin.ops[pb + 3] == Op::LiteralCreate(LiteralValue::Integer(0))
    }
}

/// A lowered `LogicAnd` is laid out as its lowering says.
#[verifier::rlimit(50)]
pub proof fn lemma_and_layout(
    g: GenView,
    a: GenView,
    b: GenView,
    na: nat,
    la: nat,
    nb: nat,
    lb: nat,
    fin: GenView,
)
    requires
        g.has_room(na + nb + 5, la + lb + 2),
        a.grown_by(g.create_label().create_label(), na, la),
        b.grown_by(and_middle(g, a), nb, lb),
        fin.keeps(truth_tail(b, g.next_label(), (g.labels.len() + 1) as usize)),
        fin.wf(),
    ensures
        (AndLayout {
            left_end: a.ops.len() as int,
            right_end: b.ops.len() as int,
            label_false: g.labels.len() as int,
            label_next: (g.labels.len() + 1) as int,
        }).laid_out(fin),
        and_middle(g, a).ops.len() == a.ops.len() + 1,
        a.ops.len() == g.ops.len() + na,
        b.ops.len() == g.ops.len() + na + 1 + nb,
{
    let g0 = g.create_label().create_label();
    let m = and_middle(g, a);
    let f = g.labels.len() as int;
    let n = (g.labels.len() + 1) as int;
    let out = truth_tail(b, g.next_label(), (g.labels.len() + 1) as usize);
    let pa = a.ops.len() as int;
    let pb = b.ops.len() as int;
    assert(a.labels[f] == g0.labels[f]);
    assert(a.labels[n] == g0.labels[n]);
    assert(b.labels[f] == m.labels[f]);
    assert(b.labels[n] == m.labels[n]);
    assert(b.ops[pa] == m.ops[pa]);
    assert(out.labels[f].target == Some((pb + 3) as usize));
    assert(out.labels[f].jumps =~= seq![pa as usize, pb as usize]);
    assert(out.labels[n].target == Some((pb + 4) as usize));
    assert(out.labels[n].jumps =~= seq![(pb + 2) as usize]);
    assert(out.ops[pa] == Op::JumpZero(0));
    assert(out.ops[pb] == Op::JumpZero(0));
    assert(out.ops[pb + 1] == Op::LiteralCreate(LiteralValue::Integer(1)));
    assert(out.ops[pb + 2] == Op::Jump(0));
    assert(out.ops[pb + 3] == Op::LiteralCreate(LiteralValue::Integer(0)));
    assert(fin.labels[f].jumps[0] == out.labels[f].jumps[0]);
    assert(fin.labels[f].jumps[1] == out.labels[f].jumps[1]);
    assert(fin.labels[n].jumps[0] == out.labels[n].jumps[0]);
    assert(fin.labels[f].target == out.labels[f].target);
    assert(fin.labels[n].target == out.labels[n].target);
}

/// The machine runs a `LogicAnd` that is laid out, given how it runs the two
/// sides.
#[verifier::rlimit(50)]
pub proof fn lemma_and_runs(
    at: AndLayout,
    fin: GenView,
    ops: Seq<Op>,
    r: Running,
    x: i64,
    y: i64,
    ca: nat,
    cb: nat,
)
    requires
        at.laid_out(fin),
        runs(fin, ops, r),
        advanced_by(r, ca) == Some(
            moved(r, at.left_end, r.frame.stack.stack.push(Value::Integer(x))),
        ),
        x != 0 ==> advanced_by(moved(r, at.left_end + 1, r.frame.stack.stack), cb) == Some(
            moved(r, at.right_end, r.frame.stack.stack.push(Value::Integer(y))),
        ),
    ensures
        advanced_by(
            r,
            if x == 0 {
                ca + 2
            } else {
                ca + 1 + cb + (if y == 0 {
                    2nat
                } else {
                    3nat
                })
            },
        ) == Some(
            moved(
                r,
                at.right_end + 4,
                r.frame.stack.stack.push(
                    Value::Integer(
                        if x == 0 {
                            0
                        } else {
                            truth_of(y)
                        },
                    ),
                ),
            ),
        ),
{
    let rest = r.frame.stack.stack;
    let f = at.label_false;
    let n = at.label_next;
    let pa = at.left_end;
    let pb = at.right_end;
    let r1 = moved(r, pa, rest.push(Value::Integer(x)));
    lemma_step_jump_if(fin, ops, r1, f, 0, pb + 3, true, x, rest);
    if x == 0 {
        let r2 = moved(r, pb + 3, rest);
        lemma_then(r, ca, r1, r2);
        let r3 = moved(r, pb + 4, rest.push(Value::Integer(0)));
        lemma_step_literal(fin, ops, r2, 0);
        lemma_then(r, ca + 1, r2, r3);
    } else {
        let r2 = moved(r, pa + 1, rest);
        lemma_then(r, ca, r1, r2);
        let r3 = moved(r, pb, rest.push(Value::Integer(y)));
        lemma_then_by(r, ca + 1, r2, cb, r3);
        lemma_step_jump_if(fin, ops, r3, f, 1, pb + 3, true, y, rest);
        if y == 0 {
            let r4 = moved(r, pb + 3, rest);
            lemma_then(r, ca + 1 + cb, r3, r4);
            let r5 = moved(r, pb + 4, rest.push(Value::Integer(0)));
            lemma_step_literal(fin, ops, r4, 0);
            lemma_then(r, ca + 1 + cb + 1, r4, r5);
        } else {
            let r4 = moved(r, pb + 1, rest);
            lemma_then(r, ca + 1 + cb, r3, r4);
            let r5 = moved(r, pb + 2, rest.push(Value::Integer(1)));
            lemma_step_literal(fin, ops, r4, 1);
            lemma_then(r, ca + 1 + cb + 1, r4, r5);
            let r6 = moved(r, pb + 4, rest.push(Value::Integer(1)));
            lemma_step_jump(fin, ops, r5, n, 0, pb + 4);
            lemma_then(r, ca + 1 + cb + 2, r5, r6);
        }
    }
}

/// Where the instructions and the labels of a `LogicOr` stand.
pub struct OrLayout {
    /// The place of the jump behind the left side.
    pub left_end: int,
    /// The place of the jump behind the right side.
    pub right_end: int,
    pub label_rhs: int,
    pub label_true: int,
    pub label_false: int,
    pub label_next: int,
}

impl OrLayout {
    /// Whether the finished state has the instructions and the labels at
    /// these places.
    pub open spec fn laid_out(self, fin: GenView) -> bool {
        let pa = self.left_end;
        let pb = self.right_end;
        &&& 0 <= pa
        &&& pa + 2 <= pb
        &&& pb + 4 <= fin.ops.len()
        &&& 0 <= self.label_rhs < fin.labels.len()
        &&& 0 <= self.label_true < fin.labels.len()
        &&& 0 <= self.label_false < fin.labels.len()
        &&& 0 <= self.label_next < fin.labels.len()
        &&& fin.labels[self.label_rhs].jumps.len() >= 1
        &&& fin.labels[self.label_rhs].jumps[0] == pa
        &&& fin.labels[self.label_rhs].target == Some((pa + 2) as usize)
        &&& fin.labels[self.label_true].jumps.len() >= 1
        &&& fin.labels[self.label_true].jumps[0] == pa + 1
        &&& fin.labels[self.label_true].target == Some((pb + 1) as usize)
        &&& fin.labels[self.label_false].jumps.len() >= 1
        &&& fin.labels[self.label_false].jumps[0] == pb
        &&& fin.labels[self.label_false].target == Some((pb + 3) as usize)
        &&& fin.labels[self.label_next].jumps.len() >= 1
        &&& fin.labels[self.label_next].jumps[0] == pb + 2
        &&& fin.labels[self.label_next].target == Some((pb + 4) as usize)
        &&& fin.ops[pa] == Op::JumpZero(0)
        &&& fin.ops[pa + 1] == Op::Jump(0)
        &&& fin.ops[pb] == Op::JumpZero(0)
        &&& fin.ops[pb + 1] == Op::LiteralCreate(LiteralValue::Integer(1))
        &&& fin.ops[pb + 2] == Op::Jump(0)
        &&& fin.ops[pb + 3] == Op::LiteralCreate(LiteralValue::Integer(0))
    }
}

/// A lowered `LogicOr` is laid out as its lowering says.
#[verifier::rlimit(50)]
pub proof fn lemma_or_layout(
    g: GenView,
    a: GenView,
    b: GenView,
    na: nat,
    la: nat,
    nb: nat,
    lb: nat,
    fin: GenView,
)
    requires
        g.has_room(na + nb + 6, la + lb + 4),
        a.grown_by(g.create_label().create_label().create_label().create_label(), na, la),
        b.grown_by(or_middle(g, a), nb, lb),
        fin.keeps(or_end(g, b)),
        fin.wf(),
    ensures
        (OrLayout {
            left_end: a.ops.len() as int,
            right_end: b.ops.len() as int,
            label_rhs: g.labels.len() as int,
            label_true: (g.labels.len() + 1) as int,
            label_false: (g.labels.len() + 2) as int,
            label_next: (g.labels.len() + 3) as int,
        }).laid_out(fin),
        or_middle(g, a).ops.len() == a.ops.len() + 2,
        a.ops.len() == g.ops.len() + na,
        b.ops.len() == g.ops.len() + na + 2 + nb,
{
    let g0 = g.create_label().create_label().create_label().create_label();
    let m = or_middle(g, a);
    let lr = g.labels.len() as int;
    let lt = (g.labels.len() + 1) as int;
    let lf = (g.labels.len() + 2) as int;
    let ln = (g.labels.len() + 3) as int;
    let out = or_end(g, b);
    let pa = a.ops.len() as int;
    let pb = b.ops.len() as int;
    assert(a.labels[lr] == g0.labels[lr]);
    assert(a.labels[lt] == g0.labels[lt]);
    assert(a.labels[lf] == g0.labels[lf]);
    assert(a.labels[ln] == g0.labels[ln]);
    assert(m.ops.len() == pa + 2);
    assert(b.labels[lr] == m.labels[lr]);
    assert(b.labels[lt] == m.labels[lt]);
    assert(b.labels[lf] == m.labels[lf]);
    assert(b.labels[ln] == m.labels[ln]);
    assert(b.ops[pa] == m.ops[pa]);
    assert(b.ops[pa + 1] == m.ops[pa + 1]);
    assert(out.labels[lr].target == Some((pa + 2) as usize));
    assert(out.labels[lr].jumps =~= seq![pa as usize]);
    assert(out.labels[lt].target == Some((pb + 1) as usize));
    assert(out.labels[lt].jumps =~= seq![(pa + 1) as usize]);
    assert(out.labels[lf].target == Some((pb + 3) as usize));
    assert(out.labels[lf].jumps =~= seq![pb as usize]);
    assert(out.labels[ln].target == Some((pb + 4) as usize));
    assert(out.labels[ln].jumps =~= seq![(pb + 2) as usize]);
    assert(out.ops[pa] == Op::JumpZero(0));
    assert(out.ops[pa + 1] == Op::Jump(0));
    assert(out.ops[pb] == Op::JumpZero(0));
    assert(out.ops[pb + 1] == Op::LiteralCreate(LiteralValue::Integer(1)));
    assert(out.ops[pb + 2] == Op::Jump(0));
    assert(out.ops[pb + 3] == Op::LiteralCreate(LiteralValue::Integer(0)));
    assert(fin.labels[lr].jumps[0] == out.labels[lr].jumps[0]);
    assert(fin.labels[lt].jumps[0] == out.labels[lt].jumps[0]);
    assert(fin.labels[lf].jumps[0] == out.labels[lf].jumps[0]);
    assert(fin.labels[ln].jumps[0] == out.labels[ln].jumps[0]);
    assert(fin.labels[lr].target == out.labels[lr].target);
    assert(fin.labels[lt].target == out.labels[lt].target);
    assert(fin.labels[lf].target == out.labels[lf].target);
    assert(fin.labels[ln].target == out.labels[ln].target);
}

/// The machine runs a `LogicOr` that is laid out, given how it runs the two
/// sides.
#[verifier::rlimit(50)]
pub proof fn lemma_or_runs(
    at: OrLayout,
    fin: GenView,
    ops: Seq<Op>,
    r: Running,
    x: i64,
    y: i64,
    ca: nat,
    cb: nat,
)
    requires
        at.laid_out(fin),
        runs(fin, ops, r),
        advanced_by(r, ca) == Some(
            moved(r, at.left_end, r.frame.stack.stack.push(Value::Integer(x))),
        ),
        x == 0 ==> advanced_by(moved(r, at.left_end + 2, r.frame.stack.stack), cb) == Some(
            moved(r, at.right_end, r.frame.stack.stack.push(Value::Integer(y))),
        ),
    ensures
        advanced_by(
            r,
            if x != 0 {
                ca + 4
            } else {
                ca + 1 + cb + (if y == 0 {
                    2nat
                } else {
                    3nat
                })
            },
        ) == Some(
            moved(
                r,
                at.right_end + 4,
                r.frame.stack.stack.push(
                    Value::Integer(
                        if x != 0 {
                            1
                        } else {
                            truth_of(y)
                        },
                    ),
                ),
            ),
        ),
{
    let rest = r.frame.stack.stack;
    let pa = at.left_end;
    let pb = at.right_end;
    let r1 = moved(r, pa, rest.push(Value::Integer(x)));
    lemma_step_jump_if(fin, ops, r1, at.label_rhs, 0, pa + 2, true, x, rest);
    if x != 0 {
        let r2 = moved(r, pa + 1, rest);
        lemma_then(r, ca, r1, r2);
        let r3 = moved(r, pb + 1, rest);
        lemma_step_jump(fin, ops, r2, at.label_true, 0, pb + 1);
        lemma_then(r, ca + 1, r2, r3);
        let r4 = moved(r, pb + 2, rest.push(Value::Integer(1)));
        lemma_step_literal(fin, ops, r3, 1);
        lemma_then(r, ca + 2, r3, r4);
        let r5 = moved(r, pb + 4, rest.push(Value::Integer(1)));
        lemma_step_jump(fin, ops, r4, at.label_next, 0, pb + 4);
        lemma_then(r, ca + 3, r4, r5);
    } else {
        let r2 = moved(r, pa + 2, rest);
        lemma_then(r, ca, r1, r2);
        let r3 = moved(r, pb, rest.push(Value::Integer(y)));
        lemma_then_by(r, ca + 1, r2, cb, r3);
        lemma_step_jump_if(fin, ops, r3, at.label_false, 0, pb + 3, true, y, rest);
        if y == 0 {
            let r4 = moved(r, pb + 3, rest);
            lemma_then(r, ca + 1 + cb, r3, r4);
            let r5 = moved(r, pb + 4, rest.push(Value::Integer(0)));
            lemma_step_literal(fin, ops, r4, 0);
            lemma_then(r, ca + 1 + cb + 1, r4, r5);
        } else {
            let r4 = moved(r, pb + 1, rest);
            lemma_then(r, ca + 1 + cb, r3, r4);
            let r5 = moved(r, pb + 2, rest.push(Value::Integer(1)));
            lemma_step_literal(fin, ops, r4, 1);
            lemma_then(r, ca + 1 + cb + 1, r4, r5);
            let r6 = moved(r, pb + 4, rest.push(Value::Integer(1)));
            lemma_step_jump(fin, ops, r5, at.label_next, 0, pb + 4);
            lemma_then(r, ca + 1 + cb + 2, r5, r6);
        }
    }
}

/// What is finished at the end has kept what each side of a `LogicAnd` was
/// lowered to.
pub proof fn lemma_and_keeps(
    g: GenView,
    a: GenView,
    b: GenView,
    na: nat,
    la: nat,
    nb: nat,
    lb: nat,
    fin: GenView,
)
    requires
        g.has_room(na + nb + 5, la + lb + 2),
        a.grown_by(g.create_label().create_label(), na, la),
        b.grown_by(and_middle(g, a), nb, lb),
        fin.keeps(truth_tail(b, g.next_label(), (g.labels.len() + 1) as usize)),
    ensures
        fin.keeps(a),
        fin.keeps(b),
{
    let g0 = g.create_label().create_label();
    let m = and_middle(g, a);
    let f = g.labels.len() as int;
    let n = (g.labels.len() + 1) as int;
    let out = truth_tail(b, g.next_label(), (g.labels.len() + 1) as usize);
    assert(a.labels[f] == g0.labels[f]);
    assert(a.labels[n] == g0.labels[n]);
    assert(b.labels[f] == m.labels[f]);
    assert(b.labels[n] == m.labels[n]);
    assert(m.keeps(a));
    lemma_grown_keeps(m, b);
    assert(out.keeps(b));
    lemma_keeps_transitive(b, out, fin);
    lemma_keeps_transitive(m, b, fin);
    lemma_keeps_transitive(a, m, fin);
}

/// What is finished at the end has kept what each side of a `LogicOr` was
/// lowered to.
pub proof fn lemma_or_keeps(
    g: GenView,
    a: GenView,
    b: GenView,
    na: nat,
    la: nat,
    nb: nat,
    lb: nat,
    fin: GenView,
)
    requires
        g.has_room(na + nb + 6, la + lb + 4),
        a.grown_by(g.create_label().create_label().create_label().create_label(), na, la),
        b.grown_by(or_middle(g, a), nb, lb),
        fin.keeps(or_end(g, b)),
    ensures
        fin.keeps(a),
        fin.keeps(b),
{
    let g0 = g.create_label().create_label().create_label().create_label();
    let m = or_middle(g, a);
    let out = or_end(g, b);
    let l0 = g.labels.len() as int;
    assert(a.labels[l0] == g0.labels[l0]);
    assert(a.labels[l0 + 1] == g0.labels[l0 + 1]);
    assert(a.labels[l0 + 2] == g0.labels[l0 + 2]);
    assert(a.labels[l0 + 3] == g0.labels[l0 + 3]);
    assert(b.labels[l0] == m.labels[l0]);
    assert(b.labels[l0 + 1] == m.labels[l0 + 1]);
    assert(b.labels[l0 + 2] == m.labels[l0 + 2]);
    assert(b.labels[l0 + 3] == m.labels[l0 + 3]);
    assert(m.keeps(a));
    lemma_grown_keeps(m, b);
    assert(out.keeps(b));
    lemma_keeps_transitive(b, out, fin);
    lemma_keeps_transitive(m, b, fin);
    lemma_keeps_transitive(a, m, fin);
}

/// What is finished at the end has kept what the operands of an operator
/// were lowered to.
pub proof fn lemma_operand_keeps(g1: GenView, g2: GenView, low: GenView, fin: GenView)
    requires
        g2.grows_from(g1),
        low.grows_from(g2),
        fin.keeps(low),
    ensures
        fin.keeps(g1),
        fin.keeps(g2),
{
    lemma_grown_keeps(g2, low);
    lemma_grown_keeps(g1, g2);
    lemma_keeps_transitive(g2, low, fin);
    lemma_keeps_transitive(g1, g2, fin);
}

/// The machine runs a lowered plain operator, given how it runs the
/// operands.
pub proof fn lemma_plain_runs(
    t: BinaryOpType,
    g2: GenView,
    fin: GenView,
    ops: Seq<Op>,
    r: Running,
    x: i64,
    y: i64,
    n: nat,
)
    requires
        t.plain_op() is Some,
        plain_result(t, x, y) is Some,
        g2.has_room(1, 0),
        runs(fin, ops, r),
        fin.keeps(g2.push(t.plain_op()->0)),
        advanced_by(r, n) == Some(
            moved(
                r,
                g2.ops.len() as int,
                r.frame.stack.stack.push(Value::Integer(x)).push(Value::Integer(y)),
            ),
        ),
    ensures
        advanced_by(r, n + 1) == Some(
            moved(
                r,
                (g2.ops.len() + 1) as int,
                r.frame.stack.stack.push(Value::Integer(plain_result(t, x, y)->0)),
            ),
        ),
{
    let rest = r.frame.stack.stack;
    let p2 = g2.ops.len() as int;
    let low = g2.push(t.plain_op()->0);
    let r2 = moved(r, p2, rest.push(Value::Integer(x)).push(Value::Integer(y)));
    assert(low.ops[p2] == t.plain_op()->0);
    lemma_step_binary(fin, ops, r2, t, x, y, rest);
    lemma_then(r, n, r2, moved(r, p2 + 1, rest.push(Value::Integer(plain_result(t, x, y)->0))));
}

/// The machine runs a lowered comparison, given how it runs the operands.
#[verifier::rlimit(50)]
pub proof fn lemma_comparison_runs(
    t: BinaryOpType,
    g2: GenView,
    fin: GenView,
    ops: Seq<Op>,
    r: Running,
    x: i64,
    y: i64,
    n: nat,
)
    requires
        t.decision() is Some,
        g2.has_room(1 + decision_size(t.decision()->0), 2),
        runs(fin, ops, r),
        fin.keeps(t.decision()->0.lowered(g2.push(Op::Cmp))),
        advanced_by(r, n) == Some(
            moved(
                r,
                g2.ops.len() as int,
                r.frame.stack.stack.push(Value::Integer(x)).push(Value::Integer(y)),
            ),
        ),
    ensures
        advanced_by(r, n + 1 + decision_cost(t.decision()->0, sign_of(x, y))) == Some(
            moved(
                r,
                (g2.ops.len() + 1 + decision_size(t.decision()->0)) as int,
                r.frame.stack.stack.push(
                    Value::Integer(decided(t.decision()->0, sign_of(x, y))),
                ),
            ),
        ),
{
    let d = t.decision()->0;
    let rest = r.frame.stack.stack;
    let p2 = g2.ops.len() as int;
    let g3 = g2.push(Op::Cmp);
    let low = d.lowered(g3);
    let r2 = moved(r, p2, rest.push(Value::Integer(x)).push(Value::Integer(y)));
    lemma_decision_shape(d, g3);
    assert(low.ops[p2] == Op::Cmp);
    lemma_step_compare(fin, ops, r2, x, y, rest);
    let r3 = moved(r, p2 + 1, rest.push(Value::Integer(sign_of(x, y))));
    lemma_then(r, n, r2, r3);
    lemma_comparison_decided(t, x, y);
    lemma_decision_runs(d, g3, fin, ops, r3, sign_of(x, y), rest);
    lemma_then_by(
        r,
        n + 1,
        r3,
        decision_cost(d, sign_of(x, y)),
        moved(
            r,
            (g3.ops.len() + decision_size(d)) as int,
            rest.push(Value::Integer(decided(d, sign_of(x, y)))),
        ),
    );
}

/// What the variables hold for a frame that runs instructions lowered from
/// state `g`: the slots are those of `g`, the values those of the frame.
pub open spec fn env_of(g: GenView, r: Running) -> Env {
    Env { vars: g.vars, locals: r.frame.stack.locals }
}

/// The machine runs the load of a variable that holds an integer.
pub proof fn lemma_step_load(fin: GenView, ops: Seq<Op>, r: Running, slot: u8, i: i64)
    requires
        runs(fin, ops, r),
        r.frame.cursor < fin.ops.len(),
        fin.ops[r.frame.cursor as int] == Op::StackLoad(slot),
        slot < r.frame.stack.locals.len(),
        r.frame.stack.locals[slot as int] == Value::Integer(i),
    ensures
        advanced(r) == Some(
            moved(r, r.frame.cursor + 1, r.frame.stack.stack.push(Value::Integer(i))),
        ),
{
    lemma_step_plain(
        fin,
        ops,
        r,
        Op::StackLoad(slot),
        r.frame.stack.stack.push(Value::Integer(i)),
    );
}

/// Lowering computes what the expression stands for.
///
/// Take an expression that stands for an integer where its variables hold
/// what the local slots of a frame hold, the generator state `g` from which
/// it is lowered, and the instructions `ops` that are finished at the end,
/// from a state `fin` that has kept what the lowering emitted. A frame that
/// runs `ops` and stands at the first instruction of the expression comes,
/// after `cost` instructions, to stand right behind the last instruction of
/// the expression, with the integer on top of the operands that were there:
/// nothing else in the frame and nothing in the arena has changed.
#[verifier::rlimit(80)]
pub proof fn lemma_lowering_computes(e: Expr, g: GenView, fin: GenView, ops: Seq<Op>, r: Running)
    requires
        denotes(e, env_of(g, r)) is Some,
        g.has_room(emitted(e), labelled(e)),
        runs(fin, ops, r),
        fin.keeps(e.lowered(g)),
        r.frame.cursor == g.ops.len(),
    ensures
        advanced_by(r, cost(e, env_of(g, r))) == Some(
            moved(
                r,
                (g.ops.len() + emitted(e)) as int,
                r.frame.stack.stack.push(Value::Integer(denotes(e, env_of(g, r))->0)),
            ),
        ),
    decreases e,
{
    let env = env_of(g, r);
    let rest = r.frame.stack.stack;
    let low = e.lowered(g);
    let p = g.ops.len() as int;
    match e {
        Expr::LiteralValue(l) => {
            let i = l.inner->Integer_0;
            assert(advanced_by(r, 0) == Some(r));
            assert(low.ops[p] == Op::LiteralCreate(LiteralValue::Integer(i)));
            lemma_step_literal(fin, ops, r, i);
            lemma_then(r, 0, r, moved(r, p + 1, rest.push(Value::Integer(i))));
        },
        Expr::Var(v) => {
            let i = env.integer(v.inner)->0;
            assert(advanced_by(r, 0) == Some(r));
            assert(low.ops[p] == Op::StackLoad(g.vars[v.inner]));
            lemma_step_load(fin, ops, r, g.vars[v.inner], i);
            lemma_then(r, 0, r, moved(r, p + 1, rest.push(Value::Integer(i))));
        },
        Expr::BinaryOp(b) => {
            let x = denotes(*b.lhs, env)->0;
            let y = denotes(*b.rhs, env)->0;
            assert(low == b.lowered(g));
            match b.op_type {
                BinaryOpType::LogicAnd => {
                    let g0 = g.create_label().create_label();
                    lemma_lowered_shape(*b.lhs, g0);
                    let a = b.lhs.lowered(g0);
                    let m = and_middle(g, a);
                    lemma_lowered_shape(*b.rhs, m);
                    let bb = b.rhs.lowered(m);
                    assert(low == truth_tail(bb, g.next_label(), (g.labels.len() + 1) as usize));
                    lemma_and_keeps(
                        g,
                        a,
                        bb,
                        emitted(*b.lhs),
                        labelled(*b.lhs),
                        emitted(*b.rhs),
                        labelled(*b.rhs),
                        fin,
                    );
                    lemma_lowering_computes(*b.lhs, g0, fin, ops, r);
                    if x != 0 {
                        lemma_lowering_computes(
                            *b.rhs,
                            m,
                            fin,
                            ops,
                            moved(r, m.ops.len() as int, rest),
                        );
                    }
                    lemma_and_layout(
                        g,
                        a,
                        bb,
                        emitted(*b.lhs),
                        labelled(*b.lhs),
                        emitted(*b.rhs),
                        labelled(*b.rhs),
                        fin,
                    );
                    lemma_and_runs(
                        AndLayout {
                            left_end: a.ops.len() as int,
                            right_end: bb.ops.len() as int,
                            label_false: g.labels.len() as int,
                            label_next: (g.labels.len() + 1) as int,
                        },
                        fin,
                        ops,
                        r,
                        x,
                        y,
                        cost(*b.lhs, env),
                        cost(*b.rhs, env),
                    );
                },
                BinaryOpType::LogicOr => {
                    let g0 = g.create_label().create_label().create_label().create_label();
                    lemma_lowered_shape(*b.lhs, g0);
                    let a = b.lhs.lowered(g0);
                    let m = or_middle(g, a);
                    lemma_lowered_shape(*b.rhs, m);
                    let bb = b.rhs.lowered(m);
                    assert(low == or_end(g, bb));
                    lemma_or_keeps(
                        g,
                        a,
                        bb,
                        emitted(*b.lhs),
                        labelled(*b.lhs),
                        emitted(*b.rhs),
                        labelled(*b.rhs),
                        fin,
                    );
                    lemma_lowering_computes(*b.lhs, g0, fin, ops, r);
                    if x == 0 {
                        lemma_lowering_computes(
                            *b.rhs,
                            m,
                            fin,
                            ops,
                            moved(r, m.ops.len() as int, rest),
                        );
                    }
                    lemma_or_layout(
                        g,
                        a,
                        bb,
                        emitted(*b.lhs),
                        labelled(*b.lhs),
                        emitted(*b.rhs),
                        labelled(*b.rhs),
                        fin,
                    );
                    lemma_or_runs(
                        OrLayout {
                            left_end: a.ops.len() as int,
                            right_end: bb.ops.len() as int,
                            label_rhs: g.labels.len() as int,
                            label_true: (g.labels.len() + 1) as int,
                            label_false: (g.labels.len() + 2) as int,
                            label_next: (g.labels.len() + 3) as int,
                        },
                        fin,
                        ops,
                        r,
                        x,
                        y,
                        cost(*b.lhs, env),
                        cost(*b.rhs, env),
                    );
                },
                _ => {
                    let g1 = b.lhs.lowered(g);
                    lemma_lowered_shape(*b.lhs, g);
                    lemma_lowered_shape(*b.rhs, g1);
                    let g2 = b.rhs.lowered(g1);
                    let r1 = moved(r, g1.ops.len() as int, rest.push(Value::Integer(x)));
                    let r2 = moved(
                        r,
                        g2.ops.len() as int,
                        rest.push(Value::Integer(x)).push(Value::Integer(y)),
                    );
                    match b.op_type.decision() {
                        Some(d) => {
                            let g3 = g2.push(Op::Cmp);
                            assert(low == d.lowered(g3));
                            lemma_decision_shape(d, g3);
                            assert(g3.grown_by(g2, 1, 0));
                            lemma_pair_shape(g2, g3, low, 1, 0, decision_size(d), 2);
                            lemma_operand_keeps(g1, g2, low, fin);
                            lemma_lowering_computes(*b.lhs, g, fin, ops, r);
                            lemma_lowering_computes(*b.rhs, g1, fin, ops, r1);
                            lemma_then_by(r, cost(*b.lhs, env), r1, cost(*b.rhs, env), r2);
                            lemma_comparison_runs(
                                b.op_type,
                                g2,
                                fin,
                                ops,
                                r,
                                x,
                                y,
                                cost(*b.lhs, env) + cost(*b.rhs, env),
                            );
                            lemma_comparison_decided(b.op_type, x, y);
                        },
                        None => {
                            let op = b.op_type.plain_op()->0;
                            assert(low == g2.push(op));
                            assert(low.grown_by(g2, 1, 0));
                            lemma_operand_keeps(g1, g2, low, fin);
                            lemma_lowering_computes(*b.lhs, g, fin, ops, r);
                            lemma_lowering_computes(*b.rhs, g1, fin, ops, r1);
                            lemma_then_by(r, cost(*b.lhs, env), r1, cost(*b.rhs, env), r2);
                            assert(plain_result(b.op_type, x, y) == denotes(e, env));
                            lemma_plain_runs(
                                b.op_type,
                                g2,
                                fin,
                                ops,
                                r,
                                x,
                                y,
                                cost(*b.lhs, env) + cost(*b.rhs, env),
                            );
                        },
                    }
                },
            }
        },
        Expr::UnaryOp(u) => {
            let x = denotes(*u.expr, env)->0;
            let g1 = u.expr.lowered(g);
            lemma_lowered_shape(*u.expr, g);
            let p1 = g1.ops.len() as int;
            assert(low == u.lowered(g));
            let r1 = moved(r, p1, rest.push(Value::Integer(x)));
            match u.op_type {
                UnaryOpType::LogicNot => {
                    let d = super::unaryop::logic_not();
                    lemma_decision_shape(d, g1);
                    lemma_grown_keeps(g1, low);
                    lemma_keeps_transitive(g1, low, fin);
                    lemma_lowering_computes(*u.expr, g, fin, ops, r);
                    lemma_decision_runs(d, g1, fin, ops, r1, x, rest);
                    lemma_then_by(
                        r,
                        cost(*u.expr, env),
                        r1,
                        decision_cost(d, x),
                        moved(
                            r,
                            (g1.ops.len() + decision_size(d)) as int,
                            rest.push(Value::Integer(decided(d, x))),
                        ),
                    );
                },
                _ => {
                    let op = u.op_type.plain_op()->0;
                    assert(low == g1.push(op));
                    assert(low.grown_by(g1, 1, 0));
                    lemma_grown_keeps(g1, low);
                    lemma_keeps_transitive(g1, low, fin);
                    lemma_lowering_computes(*u.expr, g, fin, ops, r);
                    assert(low.ops[p1] == op);
                    lemma_step_unary(fin, ops, r1, u.op_type, x, rest);
                    lemma_then(
                        r,
                        cost(*u.expr, env),
                        r1,
                        moved(r, p1 + 1, rest.push(Value::Integer(denotes(e, env)->0))),
                    );
                },
            }
        },
        _ => {},
    }
}

/// The machine follows its running frame: while the frame advances, the
/// machine goes on with the frame as it has advanced.
pub proof fn lemma_machine_advances(
    frames: Seq<FrameView>,
    heap: HeapView,
    n: nat,
    k: nat,
    to: Running,
)
    requires
        frames.len() > 0,
        advanced_by(Running { frame: frames.last(), heap }, n) == Some(to),
    ensures
        ran(frames, heap, n + k) == ran(with_top(frames, to.frame), to.heap, k),
    decreases n,
{
    if n == 0 {
        assert(with_top(frames, frames.last()) =~= frames);
    } else {
        let r = Running { frame: frames.last(), heap };
        let next = advanced(r)->0;
        let step = frames.last().step(heap);
        let stepped = with_top(frames, step.frame);
        let p = processed(stepped, step.heap, step.result->Ok_0);
        assert(stepped.last() == step.frame);
        assert(p.frames =~= with_top(frames, next.frame));
        assert(p.heap == next.heap);
        assert(p.state is Running);
        lemma_machine_advances(p.frames, p.heap, (n - 1) as nat, k, to);
        assert(with_top(with_top(frames, next.frame), to.frame) =~= with_top(frames, to.frame));
    }
}

/// What the variables hold for a frame in which no variable is bound.
pub open spec fn unbound(frame: FrameView) -> Env {
    Env { vars: Map::empty(), locals: frame.stack.locals }
}

/// What a function that returns an expression is lowered to.
///
/// Take a function without arguments whose body is `Return(e)`, where `e`
/// reads no variable. The analysis leaves the body as it is and hands no
/// variable up, so the function can be compiled exactly if `e` can be
/// lowered with no variable bound, and it is lowered to the expression and a
/// `Return`.
#[verifier::rlimit(50)]
pub proof fn lemma_return_lowered(f: Function, e: Expr)
    requires
        f.args@.len() == 0,
        block_view(f.body@) == seq![StmtV::Return(e)],
        e.vars().len() == 0,
        emitted(e) + 1 <= i32::MAX,
        labelled(e) <= usize::MAX,
    ensures
        f.analysed_body().block == seq![StmtV::Return(e)],
        f.analysed_body().outer.len() == 0,
        f.compilable() == e.compilable(Map::empty()),
        f.lowered() == e.lowered(GenView::fresh()).push(Op::Return),
{
    let g = GenView::fresh();
    let body = seq![StmtV::Return(e)];
    // The analysis finds no variable, so it puts in no drop.
    assert(super::function::setup(f.args@) =~= Seq::<StmtV>::empty());
    assert(f.prepared() =~= body);
    let t = Tally { seen: Set::empty(), deferred: Seq::empty() };
    assert(e.vars() =~= Seq::empty());
    assert(t.note_expr(e) == t);
    assert(body.drop_last() =~= Seq::<StmtV>::empty());
    let scan = scan_block(body, Set::empty());
    reveal_with_fuel(scan_block, 2);
    assert(scan.stmts =~= body);
    assert(scan.deferred =~= seq![Seq::<usize>::empty()]);
    assert(scan.stmts.drop_last() =~= Seq::<StmtV>::empty());
    assert(scan.deferred.drop_last() =~= Seq::<Seq<usize>>::empty());
    assert(drops_for(Seq::<usize>::empty(), scan.bindings) =~= Seq::<StmtV>::empty());
    assert(spliced(scan.stmts, scan.deferred, scan.bindings) =~= body) by {
        reveal_with_fuel(spliced, 2);
    }
    assert(outer_all(scan.deferred, scan.bindings) =~= Seq::<usize>::empty()) by {
        reveal_with_fuel(outer_all, 2);
        assert(outer_for(Seq::<usize>::empty(), scan.bindings) =~= Seq::<usize>::empty());
    }
    assert(f.analysed_body().block == body);
    assert(f.analysed_body().outer.len() == 0);
    // The body is lowered to the expression and a `Return`.
    assert(body.drop_first() =~= Seq::<StmtV>::empty());
    assert(f.lowered() == e.lowered(g).push(Op::Return)) by {
        reveal_with_fuel(block_lowered, 2);
    }
    lemma_lowered_shape(e, g);
    assert(block_ok(body, g) == e.compilable(Map::empty())) by {
        reveal_with_fuel(block_ok, 2);
    }
    assert(block_no_drops(block_view(f.body@)));
}

/// A function that returns an expression returns what the expression stands
/// for.
///
/// Take a function without arguments whose body is `Return(e)`, where `e`
/// stands for an integer and reads no variable, and the instructions `ops`
/// that `compile` makes of it. A machine that starts a frame for these
/// instructions finishes after `cost + 1` instructions with that integer.
#[verifier::rlimit(50)]
pub proof fn lemma_return_computes(
    f: Function,
    e: Expr,
    ops: Seq<Op>,
    frame: FrameView,
    heap: HeapView,
)
    requires
        f.args@.len() == 0,
        block_view(f.body@) == seq![StmtV::Return(e)],
        denotes(e, unbound(frame)) is Some,
        e.vars().len() == 0,
        emitted(e) + 1 <= i32::MAX,
        labelled(e) <= usize::MAX,
        f.lowered().wf(),
        f.lowered().finalizes_to(ops),
        heap.function(frame.function) is Some,
        (heap.function(frame.function)->0).1 == ops,
        frame.cursor == 0,
        frame.stack.stack.len() == 0,
    ensures
        f.analysed_body().block == seq![StmtV::Return(e)],
        f.analysed_body().outer.len() == 0,
        f.compilable() == e.compilable(Map::empty()),
        f.lowered() == e.lowered(GenView::fresh()).push(Op::Return),
        ran(seq![frame], heap, cost(e, unbound(frame)) + 1).result == Ok::<
            StateView,
            crate::bytecode::OpError,
        >(StateView::Exited(Value::Integer(denotes(e, unbound(frame))->0))),
{
    let env = unbound(frame);
    let g = GenView::fresh();
    lemma_return_lowered(f, e);
    let low = e.lowered(g);
    let fin = low.push(Op::Return);
    lemma_lowered_shape(e, g);
    assert(fin.can_finalize());
    assert(fin.keeps(low));
    let r = Running { frame, heap };
    lemma_lowering_computes(e, g, fin, ops, r);
    let v = Value::Integer(denotes(e, env)->0);
    let to = moved(r, emitted(e) as int, frame.stack.stack.push(v));
    lemma_machine_advances(seq![frame], heap, cost(e, env), 1, to);
    // The `Return` hands the integer to the machine, which has no caller to
    // give it to.
    let frames = with_top(seq![frame], to.frame);
    lemma_plain_at(fin, ops, emitted(e) as int);
    assert(to.frame.stack.top(0) == v);
    assert(to.frame.current(to.heap) == Some(Op::Return));
    assert(ran(frames, to.heap, 0).result is Ok);
    reveal_with_fuel(ran, 2);
}

} // verus!
