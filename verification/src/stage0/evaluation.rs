//! What lowered expressions compute, whatever kind of value they give.
//!
//! An expression is evaluated from the inside out: its operands one after
//! the other, first to last, and then the operator on what they left. This
//! module states the operands and the arena that such an evaluation leaves,
//! and proves that the machine, running the instructions to which the
//! expression was lowered, comes to exactly that state.
//!
//! The evaluation stays in one frame. It has no result where an instruction
//! fails, where the machine would have to ask its host (arithmetic on reals),
//! where another function is called, or where an instruction would take the
//! function that is running out of the arena.

use vstd::prelude::*;
use crate::bytecode::ops::jump::is_zero;
use crate::bytecode::{ActionView, LiteralValue, Op, Operation};
use crate::callframe::FrameView;
use crate::callstack::CallStackView;
use crate::datamodel::Function as FuncVal;
use crate::datamodel::{HeapView, Value};
use super::binaryop::{BinaryOpType, Decision};
use super::codegen::{GenView, Var};
use super::expr::{all_lowered, Expr};
use super::meaning::{
    advanced, advanced_by, all_emitted, all_labelled, and_middle, decided, decision_size, emitted,
    labelled, lemma_advanced_by_sum, lemma_and_keeps, lemma_and_layout, lemma_decision_runs,
    lemma_decision_shape, lemma_grown_keeps, lemma_jump_at, lemma_keeps_transitive,
    lemma_lowered_shape, lemma_or_keeps, lemma_or_layout, lemma_plain_at, lemma_step_jump,
    lemma_step_literal, moved, or_end, or_middle, runs, truth_tail, Running,
};
use super::statement::{block_view, StmtV};
use super::unaryop::{logic_not, UnaryOpType};
use crate::vm::{ran, with_top, StateView};

verus! {

/// The operands and local slots of a frame, and the arena.
pub struct Store {
    pub stack: CallStackView,
    pub heap: HeapView,
}

/// The store of a frame.
pub open spec fn store_of(r: Running) -> Store {
    Store { stack: r.frame.stack, heap: r.heap }
}

/// The frame of function `f` at place `cursor` with a store.
pub open spec fn placed(f: FuncVal, cursor: int, s: Store) -> Running {
    Running { frame: FrameView { function: f, cursor: cursor as usize, stack: s.stack }, heap: s.heap }
}

/// The store after one instruction, where the instruction succeeds, asks for
/// nothing, and leaves the function `f` that is running in the arena.
#[verifier::opaque]
pub open spec fn applied(op: Op, f: FuncVal, s: Store) -> Option<Store> {
    let e = op.effect(s.stack, s.heap);
    if e.result == Ok::<ActionView, crate::bytecode::OpError>(ActionView::Next) && e.heap.function(f)
        == s.heap.function(f) {
        Some(Store { stack: e.stack, heap: e.heap })
    } else {
        None
    }
}

/// The store after one instruction that follows an evaluation.
pub open spec fn then_applied(op: Op, f: FuncVal, s: Option<Store>) -> Option<Store> {
    match s {
        Some(s) => applied(op, f, s),
        None => None,
    }
}

/// The store after a decision on the integer that an evaluation has left on
/// top: the integer is replaced by the `0` or `1` that the decision makes of
/// it.
pub open spec fn then_decided(d: Decision, s: Option<Store>) -> Option<Store> {
    match s {
        Some(s) => if s.stack.stack.len() > 0 {
            match s.stack.top(0) {
                Value::Integer(x) => Some(
                    Store { stack: s.stack.popped(1).pushed(Value::Integer(decided(d, x))), ..s },
                ),
                _ => None,
            }
        } else {
            None
        },
        None => None,
    }
}

/// What `JumpZero` makes of the value that an evaluation has left on top:
/// whether the value counts as zero, and the store without the value, whose
/// handle is given up. There is no result where that would take the function
/// `f` that is running out of the arena.
pub open spec fn tested(s: Option<Store>, f: FuncVal) -> Option<(bool, Store)> {
    match s {
        Some(s) => if s.stack.stack.len() > 0 && s.heap.released(s.stack.top(0)).function(f)
            == s.heap.function(f) {
            Some(
                (
                    is_zero(s.stack.top(0)),
                    Store { stack: s.stack.popped(1), heap: s.heap.released(s.stack.top(0)) },
                ),
            )
        } else {
            None
        },
        None => None,
    }
}

/// The store with an integer on top.
pub open spec fn with_integer(s: Store, i: i64) -> Store {
    Store { stack: s.stack.pushed(Value::Integer(i)), ..s }
}

/// `0` for what counts as zero, and `1` for anything else.
pub open spec fn truth(zero: bool) -> i64 {
    if zero {
        0
    } else {
        1
    }
}

/// Whether the left side alone decides: what counts as zero decides a
/// `LogicAnd`, anything else a `LogicOr`.
pub open spec fn decides(t: BinaryOpType, zero: bool) -> bool {
    if t == BinaryOpType::LogicAnd {
        zero
    } else {
        !zero
    }
}

/// What a `LogicAnd` or a `LogicOr` of two expressions leaves.
pub open spec fn logic_evaluated(
    t: BinaryOpType,
    lhs: Expr,
    rhs: Expr,
    vars: Map<Var, u8>,
    f: FuncVal,
    s: Store,
) -> Option<Store> {
    match tested(evaluated(lhs, vars, f, s), f) {
        Some((zero, s1)) => if decides(t, zero) {
            Some(with_integer(s1, truth(zero)))
        } else {
            match tested(evaluated(rhs, vars, f, s1), f) {
                Some((zero, s2)) => Some(with_integer(s2, truth(zero))),
                None => None,
            }
        },
        None => None,
    }
}

/// What `LogicNot` makes of what an evaluation has left on top: `1` for what
/// counts as zero, and `0` for anything else.
pub open spec fn then_negated(s: Option<Store>, f: FuncVal) -> Option<Store> {
    match tested(s, f) {
        Some((zero, s1)) => Some(with_integer(s1, if zero { 1 } else { 0 })),
        None => None,
    }
}

/// The store after an expression was evaluated in a frame of function `f`,
/// with the variables in the slots that `vars` gives them.
///
/// * A literal puts its value on the operands. A variable puts a copy of
///   what its slot holds there, and `ModuleRef` a copy of slot 0.
/// * An operator evaluates its operands first to last and then does what its
///   instruction does to the operands that they left.
/// * A comparison evaluates both sides, compares them with `Cmp` and decides
///   on the sign. `LogicNot` leaves `1` where its operand left what counts as
///   zero, else `0`.
/// * `LogicAnd` and `LogicOr` evaluate their left side. What counts as zero
///   decides a `LogicAnd`, which then leaves `0`; anything else decides a
///   `LogicOr`, which then leaves `1`. The right side is evaluated only where
///   the left side has not decided; `0` is left if it leaves what counts as
///   zero, else `1`.
/// * A call has no result here: it leaves the frame.
pub open spec fn evaluated(e: Expr, vars: Map<Var, u8>, f: FuncVal, s: Store) -> Option<Store>
    decreases e,
{
    match e {
        Expr::LiteralValue(l) => applied(Op::LiteralCreate(l.inner), f, s),
        Expr::Var(v) => if vars.contains_key(v.inner) {
            applied(Op::StackLoad(vars[v.inner]), f, s)
        } else {
            None
        },
        Expr::ModuleRef => applied(Op::StackLoad(0), f, s),
        Expr::BinaryOp(b) => match b.op_type {
            BinaryOpType::LogicAnd | BinaryOpType::LogicOr => match tested(
                evaluated(*b.lhs, vars, f, s),
                f,
            ) {
                Some((zero, s1)) => if decides(b.op_type, zero) {
                    Some(with_integer(s1, truth(zero)))
                } else {
                    match tested(evaluated(*b.rhs, vars, f, s1), f) {
                        Some((zero, s2)) => Some(with_integer(s2, truth(zero))),
                        None => None,
                    }
                },
                None => None,
            },
            _ => match evaluated(*b.lhs, vars, f, s) {
                Some(s1) => match b.op_type.plain_op() {
                    Some(op) => then_applied(op, f, evaluated(*b.rhs, vars, f, s1)),
                    None => then_decided(
                        b.op_type.decision()->0,
                        then_applied(Op::Cmp, f, evaluated(*b.rhs, vars, f, s1)),
                    ),
                },
                None => None,
            },
        },
        Expr::UnaryOp(u) => match u.op_type.plain_op() {
            Some(op) => then_applied(op, f, evaluated(*u.expr, vars, f, s)),
            None => then_negated(evaluated(*u.expr, vars, f, s), f),
        },
        Expr::Call { func, args } => None,
        Expr::SeqIndex { seq, index } => match evaluated(*seq, vars, f, s) {
            Some(s1) => then_applied(Op::SeqGet, f, evaluated(*index, vars, f, s1)),
            None => None,
        },
        Expr::SeqLen { seq } => then_applied(Op::SeqLen, f, evaluated(*seq, vars, f, s)),
        Expr::SeqToList { seq } => then_applied(Op::SeqToList, f, evaluated(*seq, vars, f, s)),
        Expr::TupleCreate(items) => if items@.len() <= 255 {
            then_applied(
                Op::TupleCreate(items@.len() as u8),
                f,
                all_evaluated(items@, vars, f, s),
            )
        } else {
            None
        },
        Expr::TupleFromList(a) => then_applied(Op::TupleFromList, f, evaluated(*a, vars, f, s)),
        Expr::TupleWeakRef(a) => then_applied(Op::TupleWeakRef, f, evaluated(*a, vars, f, s)),
        Expr::TupleWeakUpgrade(a) => then_applied(
            Op::TupleWeakUpgrade,
            f,
            evaluated(*a, vars, f, s),
        ),
        Expr::TableCreate(a) => then_applied(Op::TableCreate, f, evaluated(*a, vars, f, s)),
        Expr::ListCreate(items) => if items@.len() <= 255 {
            then_applied(Op::ListCreate(items@.len() as u8), f, all_evaluated(items@, vars, f, s))
        } else {
            None
        },
        Expr::ListGetSlice { list, a, b } => match evaluated(*list, vars, f, s) {
            Some(s1) => match evaluated(*a, vars, f, s1) {
                Some(s2) => then_applied(Op::ListGetSlice, f, evaluated(*b, vars, f, s2)),
                None => None,
            },
            None => None,
        },
        Expr::ListPop(a) => then_applied(Op::ListPop, f, evaluated(*a, vars, f, s)),
        Expr::BufferCreate(a) => then_applied(Op::BufferCreate, f, evaluated(*a, vars, f, s)),
        Expr::BufferGetSlice { buffer, a, b } => match evaluated(*buffer, vars, f, s) {
            Some(s1) => match evaluated(*a, vars, f, s1) {
                Some(s2) => then_applied(Op::BufferGetSlice, f, evaluated(*b, vars, f, s2)),
                None => None,
            },
            None => None,
        },
    }
}

/// The store after the expressions were evaluated one after the other.
pub open spec fn all_evaluated(es: Seq<Expr>, vars: Map<Var, u8>, f: FuncVal, s: Store) -> Option<
    Store,
>
    decreases es,
{
    if es.len() == 0 {
        Some(s)
    } else {
        match all_evaluated(es.drop_last(), vars, f, s) {
            Some(s1) => evaluated(es.last(), vars, f, s1),
            None => None,
        }
    }
}

/// Whether the frame comes from `r` to `to` by instructions that keep the
/// machine in the frame.
pub open spec fn reaches(r: Running, to: Running) -> bool {
    exists|n: nat| advanced_by(r, n) == Some(to)
}

/// A frame that comes to a state after `n` instructions reaches it.
pub proof fn lemma_reaches_after(r: Running, n: nat, to: Running)
    requires
        advanced_by(r, n) == Some(to),
    ensures
        reaches(r, to),
{
}

/// Reaching is transitive.
pub proof fn lemma_reaches_then(r: Running, mid: Running, to: Running)
    requires
        reaches(r, mid),
        reaches(mid, to),
    ensures
        reaches(r, to),
{
    let n = choose|n: nat| advanced_by(r, n) == Some(mid);
    let m = choose|m: nat| advanced_by(mid, m) == Some(to);
    lemma_advanced_by_sum(r, n, m);
}

/// The frame in which the expression was evaluated: it stands behind the
/// last instruction of the expression, with the store that the evaluation
/// left.
pub open spec fn evaluated_frame(e: Expr, g: GenView, r: Running) -> Running {
    placed(
        r.frame.function,
        (g.ops.len() + emitted(e)) as int,
        evaluated(e, g.vars, r.frame.function, store_of(r))->0,
    )
}

/// The frame in which the expressions were evaluated.
pub open spec fn all_evaluated_frame(es: Seq<Expr>, g: GenView, r: Running) -> Running {
    placed(
        r.frame.function,
        (g.ops.len() + all_emitted(es)) as int,
        all_evaluated(es, g.vars, r.frame.function, store_of(r))->0,
    )
}

/// Whether `a` is a part of `e`.
pub open spec fn part_of(e: Expr, a: Expr) -> bool {
    decreases_to!(e => a)
}

/// What a state has kept, it has kept of every state from which that one
/// grew.
pub proof fn lemma_kept(a: GenView, b: GenView, fin: GenView)
    requires
        b.grows_from(a),
        fin.keeps(b),
    ensures
        fin.keeps(a),
{
    lemma_grown_keeps(a, b);
    lemma_keeps_transitive(a, b, fin);
}

/// The machine runs the instruction that follows an evaluation.
pub proof fn lemma_finish(op: Op, g: GenView, fin: GenView, ops: Seq<Op>, r: Running)
    requires
        !op.is_jump(),
        g.has_room(1, 0),
        fin.keeps(g.push(op)),
        runs(fin, ops, r),
        r.frame.cursor == g.ops.len(),
        applied(op, r.frame.function, store_of(r)) is Some,
    ensures
        advanced(r) == Some(
            placed(
                r.frame.function,
                (g.ops.len() + 1) as int,
                applied(op, r.frame.function, store_of(r))->0,
            ),
        ),
        runs(
            fin,
            ops,
            placed(
                r.frame.function,
                (g.ops.len() + 1) as int,
                applied(op, r.frame.function, store_of(r))->0,
            ),
        ),
{
    reveal(applied);
    let p = g.ops.len() as int;
    assert(g.push(op).ops[p] == op);
    assert(fin.ops[p] == op);
    lemma_plain_at(fin, ops, p);
}

/// Lowering computes what the evaluation gives.
///
/// Take an expression whose evaluation has a result, the generator state `g`
/// from which it is lowered, and the instructions `ops` that are finished at
/// the end, from a state `fin` that has kept what the lowering emitted. A
/// frame that runs `ops` and stands at the first instruction of the
/// expression comes to stand right behind its last instruction, with the
/// operands, the local slots and the arena that the evaluation gives: the
/// operands that were there with exactly one value on top of them, and the
/// local slots as they were.
pub proof fn lemma_lowering_evaluates(e: Expr, g: GenView, fin: GenView, ops: Seq<Op>, r: Running)
    requires
        evaluated(e, g.vars, r.frame.function, store_of(r)) is Some,
        g.has_room(emitted(e), labelled(e)),
        runs(fin, ops, r),
        fin.keeps(e.lowered(g)),
        r.frame.cursor == g.ops.len(),
    ensures
        reaches(r, evaluated_frame(e, g, r)),
        runs(fin, ops, evaluated_frame(e, g, r)),
        evaluated_frame(e, g, r).frame.stack.stack == r.frame.stack.stack.push(
            evaluated_frame(e, g, r).frame.stack.top(0),
        ),
        evaluated_frame(e, g, r).frame.stack.locals == r.frame.stack.locals,
    decreases e, 3nat,
{
    lemma_evaluated_adds_one(e, g.vars, r.frame.function, store_of(r));
    let to = evaluated_frame(e, g, r);
    assert(to.frame.stack.stack =~= r.frame.stack.stack.push(to.frame.stack.top(0))) by {
        let k = r.frame.stack.stack.len() as int;
        assert forall|i: int| 0 <= i < k implies to.frame.stack.stack[i]
            == r.frame.stack.stack[i] by {
            assert(to.frame.stack.stack.subrange(0, k)[i] == to.frame.stack.stack[i]);
        }
    }
    match e {
        Expr::LiteralValue(_) | Expr::Var(_) | Expr::ModuleRef => lemma_leaf_evaluates(e, g, fin, ops, r),
        Expr::BinaryOp(_) => lemma_binary_evaluates(e, g, fin, ops, r),
        Expr::UnaryOp(_) => lemma_unary_evaluates(e, g, fin, ops, r),
        Expr::SeqIndex { .. } | Expr::SeqLen { .. } | Expr::SeqToList { .. } => lemma_sequence_evaluates(e, g, fin, ops, r),
        Expr::TupleCreate(_) | Expr::TupleFromList(_) | Expr::TupleWeakRef(_) | Expr::TupleWeakUpgrade(_) | Expr::TableCreate(_) => lemma_tuple_evaluates(e, g, fin, ops, r),
        Expr::ListCreate(_) | Expr::ListGetSlice { .. } | Expr::ListPop(_) => lemma_list_evaluates(e, g, fin, ops, r),
        Expr::BufferCreate(_) | Expr::BufferGetSlice { .. } => lemma_buffer_evaluates(e, g, fin, ops, r),
        Expr::Call { .. } => {},
    }
}

/// The machine runs a lowered literal, variable or `ModuleRef`.
pub proof fn lemma_leaf_evaluates(e: Expr, g: GenView, fin: GenView, ops: Seq<Op>, r: Running)
    requires
        e is LiteralValue || e is Var || e is ModuleRef,
        evaluated(e, g.vars, r.frame.function, store_of(r)) is Some,
        g.has_room(emitted(e), labelled(e)),
        runs(fin, ops, r),
        fin.keeps(e.lowered(g)),
        r.frame.cursor == g.ops.len(),
    ensures
        reaches(r, evaluated_frame(e, g, r)),
        runs(fin, ops, evaluated_frame(e, g, r)),
    decreases e, 2nat,
{
    let none = Seq::<Expr>::empty();
    match e {
        Expr::LiteralValue(l) => {
            lemma_straight(e, none, Op::LiteralCreate(l.inner), g, fin, ops, r);
        },
        Expr::Var(v) => {
            lemma_straight(e, none, Op::StackLoad(g.vars[v.inner]), g, fin, ops, r);
        },
        Expr::ModuleRef => {
            lemma_straight(e, none, Op::StackLoad(0), g, fin, ops, r);
        },
        _ => {},
    }
}

/// The machine runs a lowered operator on two operands.
pub proof fn lemma_binary_evaluates(e: Expr, g: GenView, fin: GenView, ops: Seq<Op>, r: Running)
    requires
        e is BinaryOp,
        evaluated(e, g.vars, r.frame.function, store_of(r)) is Some,
        g.has_room(emitted(e), labelled(e)),
        runs(fin, ops, r),
        fin.keeps(e.lowered(g)),
        r.frame.cursor == g.ops.len(),
    ensures
        reaches(r, evaluated_frame(e, g, r)),
        runs(fin, ops, evaluated_frame(e, g, r)),
    decreases e, 2nat,
{
    let f = r.frame.function;
    let s = store_of(r);
    match e {
        Expr::BinaryOp(b) => {
            assert(e.lowered(g) == b.lowered(g));
            match b.op_type {
                BinaryOpType::LogicAnd => {
                    lemma_and_evaluates(e, *b.lhs, *b.rhs, g, fin, ops, r);
                },
                BinaryOpType::LogicOr => {
                    lemma_or_evaluates(e, *b.lhs, *b.rhs, g, fin, ops, r);
                },
                _ => {
                    lemma_pair(*b.lhs, *b.rhs, g, g.vars, f, s);
                    match b.op_type.plain_op() {
                        Some(op) => {
                            lemma_straight(e, seq![*b.lhs, *b.rhs], op, g, fin, ops, r);
                        },
                        None => {
                            lemma_compared(
                                e,
                                seq![*b.lhs, *b.rhs],
                                b.op_type.decision()->0,
                                g,
                                fin,
                                ops,
                                r,
                            );
                        },
                    }
                },
            }
        },
        _ => {},
    }
}

/// The machine runs a lowered operator on one operand.
pub proof fn lemma_unary_evaluates(e: Expr, g: GenView, fin: GenView, ops: Seq<Op>, r: Running)
    requires
        e is UnaryOp,
        evaluated(e, g.vars, r.frame.function, store_of(r)) is Some,
        g.has_room(emitted(e), labelled(e)),
        runs(fin, ops, r),
        fin.keeps(e.lowered(g)),
        r.frame.cursor == g.ops.len(),
    ensures
        reaches(r, evaluated_frame(e, g, r)),
        runs(fin, ops, evaluated_frame(e, g, r)),
    decreases e, 2nat,
{
    let f = r.frame.function;
    let s = store_of(r);
    match e {
        Expr::UnaryOp(u) => {
            assert(e.lowered(g) == u.lowered(g));
            lemma_single(*u.expr, g, g.vars, f, s);
            match u.op_type.plain_op() {
                Some(op) => {
                    lemma_straight(e, seq![*u.expr], op, g, fin, ops, r);
                },
                None => {
                    lemma_negated(e, *u.expr, g, fin, ops, r);
                },
            }
        },
        _ => {},
    }
}

/// The machine runs what reads a sequence.
pub proof fn lemma_sequence_evaluates(e: Expr, g: GenView, fin: GenView, ops: Seq<Op>, r: Running)
    requires
        e is SeqIndex || e is SeqLen || e is SeqToList,
        evaluated(e, g.vars, r.frame.function, store_of(r)) is Some,
        g.has_room(emitted(e), labelled(e)),
        runs(fin, ops, r),
        fin.keeps(e.lowered(g)),
        r.frame.cursor == g.ops.len(),
    ensures
        reaches(r, evaluated_frame(e, g, r)),
        runs(fin, ops, evaluated_frame(e, g, r)),
    decreases e, 2nat,
{
    let f = r.frame.function;
    let s = store_of(r);
    match e {
        Expr::SeqIndex { seq, index } => {
            lemma_pair(*seq, *index, g, g.vars, f, s);
            lemma_straight(e, seq![*seq, *index], Op::SeqGet, g, fin, ops, r);
        },
        Expr::SeqLen { seq } => {
            lemma_single(*seq, g, g.vars, f, s);
            lemma_straight(e, seq![*seq], Op::SeqLen, g, fin, ops, r);
        },
        Expr::SeqToList { seq } => {
            lemma_single(*seq, g, g.vars, f, s);
            lemma_straight(e, seq![*seq], Op::SeqToList, g, fin, ops, r);
        },
        _ => {},
    }
}

/// The machine runs what makes a tuple, a weak handle or a table.
pub proof fn lemma_tuple_evaluates(e: Expr, g: GenView, fin: GenView, ops: Seq<Op>, r: Running)
    requires
        e is TupleCreate || e is TupleFromList || e is TupleWeakRef || e is TupleWeakUpgrade || e is TableCreate,
        evaluated(e, g.vars, r.frame.function, store_of(r)) is Some,
        g.has_room(emitted(e), labelled(e)),
        runs(fin, ops, r),
        fin.keeps(e.lowered(g)),
        r.frame.cursor == g.ops.len(),
    ensures
        reaches(r, evaluated_frame(e, g, r)),
        runs(fin, ops, evaluated_frame(e, g, r)),
    decreases e, 2nat,
{
    let f = r.frame.function;
    let s = store_of(r);
    match e {
        Expr::TupleCreate(items) => {
            lemma_straight(e, items@, Op::TupleCreate(items@.len() as u8), g, fin, ops, r);
        },
        Expr::TupleFromList(a) => {
            lemma_single(*a, g, g.vars, f, s);
            lemma_straight(e, seq![*a], Op::TupleFromList, g, fin, ops, r);
        },
        Expr::TupleWeakRef(a) => {
            lemma_single(*a, g, g.vars, f, s);
            lemma_straight(e, seq![*a], Op::TupleWeakRef, g, fin, ops, r);
        },
        Expr::TupleWeakUpgrade(a) => {
            lemma_single(*a, g, g.vars, f, s);
            lemma_straight(e, seq![*a], Op::TupleWeakUpgrade, g, fin, ops, r);
        },
        Expr::TableCreate(a) => {
            lemma_single(*a, g, g.vars, f, s);
            lemma_straight(e, seq![*a], Op::TableCreate, g, fin, ops, r);
        },
        _ => {},
    }
}

/// The machine runs what makes a list or takes from one.
pub proof fn lemma_list_evaluates(e: Expr, g: GenView, fin: GenView, ops: Seq<Op>, r: Running)
    requires
        e is ListCreate || e is ListGetSlice || e is ListPop,
        evaluated(e, g.vars, r.frame.function, store_of(r)) is Some,
        g.has_room(emitted(e), labelled(e)),
        runs(fin, ops, r),
        fin.keeps(e.lowered(g)),
        r.frame.cursor == g.ops.len(),
    ensures
        reaches(r, evaluated_frame(e, g, r)),
        runs(fin, ops, evaluated_frame(e, g, r)),
    decreases e, 2nat,
{
    let f = r.frame.function;
    let s = store_of(r);
    match e {
        Expr::ListCreate(items) => {
            lemma_straight(e, items@, Op::ListCreate(items@.len() as u8), g, fin, ops, r);
        },
        Expr::ListGetSlice { list, a, b } => {
            lemma_triple(*list, *a, *b, g, g.vars, f, s);
            lemma_straight(e, seq![*list, *a, *b], Op::ListGetSlice, g, fin, ops, r);
        },
        Expr::ListPop(a) => {
            lemma_single(*a, g, g.vars, f, s);
            lemma_straight(e, seq![*a], Op::ListPop, g, fin, ops, r);
        },
        _ => {},
    }
}

/// The machine runs what makes a buffer or takes from one.
pub proof fn lemma_buffer_evaluates(e: Expr, g: GenView, fin: GenView, ops: Seq<Op>, r: Running)
    requires
        e is BufferCreate || e is BufferGetSlice,
        evaluated(e, g.vars, r.frame.function, store_of(r)) is Some,
        g.has_room(emitted(e), labelled(e)),
        runs(fin, ops, r),
        fin.keeps(e.lowered(g)),
        r.frame.cursor == g.ops.len(),
    ensures
        reaches(r, evaluated_frame(e, g, r)),
        runs(fin, ops, evaluated_frame(e, g, r)),
    decreases e, 2nat,
{
    let f = r.frame.function;
    let s = store_of(r);
    match e {
        Expr::BufferCreate(a) => {
            lemma_single(*a, g, g.vars, f, s);
            lemma_straight(e, seq![*a], Op::BufferCreate, g, fin, ops, r);
        },
        Expr::BufferGetSlice { buffer, a, b } => {
            lemma_triple(*buffer, *a, *b, g, g.vars, f, s);
            lemma_straight(e, seq![*buffer, *a, *b], Op::BufferGetSlice, g, fin, ops, r);
        },
        _ => {},
    }
}

/// One expression as a sequence of expressions.
pub proof fn lemma_single(a: Expr, g: GenView, vars: Map<Var, u8>, f: FuncVal, s: Store)
    ensures
        all_lowered(seq![a], g) == a.lowered(g),
        all_emitted(seq![a]) == emitted(a),
        all_labelled(seq![a]) == labelled(a),
        all_evaluated(seq![a], vars, f, s) == evaluated(a, vars, f, s),
{
    let one = seq![a];
    assert(one.drop_last() =~= Seq::<Expr>::empty());
    assert(one.last() == a);
    reveal_with_fuel(all_lowered, 2);
    reveal_with_fuel(all_emitted, 2);
    reveal_with_fuel(all_labelled, 2);
    reveal_with_fuel(all_evaluated, 2);
}

/// Two expressions as a sequence of expressions.
pub proof fn lemma_pair(a: Expr, b: Expr, g: GenView, vars: Map<Var, u8>, f: FuncVal, s: Store)
    ensures
        all_lowered(seq![a, b], g) == b.lowered(a.lowered(g)),
        all_emitted(seq![a, b]) == emitted(a) + emitted(b),
        all_labelled(seq![a, b]) == labelled(a) + labelled(b),
        all_evaluated(seq![a, b], vars, f, s) == (match evaluated(a, vars, f, s) {
            Some(s1) => evaluated(b, vars, f, s1),
            None => None,
        }),
{
    let two = seq![a, b];
    assert(two.drop_last() =~= seq![a]);
    assert(two.last() == b);
    lemma_single(a, g, vars, f, s);
}

/// Three expressions as a sequence of expressions.
pub proof fn lemma_triple(
    a: Expr,
    b: Expr,
    c: Expr,
    g: GenView,
    vars: Map<Var, u8>,
    f: FuncVal,
    s: Store,
)
    ensures
        all_lowered(seq![a, b, c], g) == c.lowered(b.lowered(a.lowered(g))),
        all_emitted(seq![a, b, c]) == emitted(a) + emitted(b) + emitted(c),
        all_labelled(seq![a, b, c]) == labelled(a) + labelled(b) + labelled(c),
        all_evaluated(seq![a, b, c], vars, f, s) == (match evaluated(a, vars, f, s) {
            Some(s1) => match evaluated(b, vars, f, s1) {
                Some(s2) => evaluated(c, vars, f, s2),
                None => None,
            },
            None => None,
        }),
{
    let three = seq![a, b, c];
    assert(three.drop_last() =~= seq![a, b]);
    assert(three.last() == c);
    lemma_pair(a, b, g, vars, f, s);
}

/// The machine evaluates the operands of an expression one after the other.
pub proof fn lemma_operands(
    e: Expr,
    parts: Seq<Expr>,
    g: GenView,
    fin: GenView,
    ops: Seq<Op>,
    r: Running,
)
    requires
        forall|i: int| 0 <= i < parts.len() ==> part_of(e, #[trigger] parts[i]),
        all_evaluated(parts, g.vars, r.frame.function, store_of(r)) is Some,
        g.has_room(all_emitted(parts), all_labelled(parts)),
        runs(fin, ops, r),
        fin.keeps(all_lowered(parts, g)),
        r.frame.cursor == g.ops.len(),
    ensures
        reaches(r, all_evaluated_frame(parts, g, r)),
        runs(fin, ops, all_evaluated_frame(parts, g, r)),
        all_lowered(parts, g).grown_by(g, all_emitted(parts), all_labelled(parts)),
    decreases e, 0nat, parts.len(),
{
    if parts.len() == 0 {
        assert(all_evaluated_frame(parts, g, r) == r);
        assert(advanced_by(r, 0) == Some(r));
    } else {
        let first = parts.drop_last();
        let last = parts.last();
        let g1 = all_lowered(first, g);
        super::meaning::lemma_all_lowered_shape(first, g);
        lemma_lowered_shape(last, g1);
        lemma_kept(g1, last.lowered(g1), fin);
        assert forall|i: int| 0 <= i < first.len() implies part_of(e, #[trigger] first[i]) by {
            assert(first[i] == parts[i]);
        }
        lemma_operands(e, first, g, fin, ops, r);
        let r1 = all_evaluated_frame(first, g, r);
        assert(part_of(e, parts[parts.len() - 1]));
        lemma_lowering_evaluates(last, g1, fin, ops, r1);
        lemma_reaches_then(r, r1, evaluated_frame(last, g1, r1));
        assert(evaluated_frame(last, g1, r1) == all_evaluated_frame(parts, g, r));
    }
}

/// The machine runs an expression that is lowered to its operands and one
/// instruction.
pub proof fn lemma_straight(
    e: Expr,
    parts: Seq<Expr>,
    op: Op,
    g: GenView,
    fin: GenView,
    ops: Seq<Op>,
    r: Running,
)
    requires
        forall|i: int| 0 <= i < parts.len() ==> part_of(e, #[trigger] parts[i]),
        !op.is_jump(),
        e.lowered(g) == all_lowered(parts, g).push(op),
        emitted(e) == all_emitted(parts) + 1,
        labelled(e) == all_labelled(parts),
        evaluated(e, g.vars, r.frame.function, store_of(r)) == then_applied(
            op,
            r.frame.function,
            all_evaluated(parts, g.vars, r.frame.function, store_of(r)),
        ),
        evaluated(e, g.vars, r.frame.function, store_of(r)) is Some,
        g.has_room(emitted(e), labelled(e)),
        runs(fin, ops, r),
        fin.keeps(e.lowered(g)),
        r.frame.cursor == g.ops.len(),
    ensures
        reaches(r, evaluated_frame(e, g, r)),
        runs(fin, ops, evaluated_frame(e, g, r)),
    decreases e, 1nat,
{
    let g1 = all_lowered(parts, g);
    super::meaning::lemma_all_lowered_shape(parts, g);
    lemma_kept(g1, g1.push(op), fin);
    lemma_operands(e, parts, g, fin, ops, r);
    let r1 = all_evaluated_frame(parts, g, r);
    lemma_finish(op, g1, fin, ops, r1);
    let to = evaluated_frame(e, g, r);
    assert(advanced(r1) == Some(to));
    assert(advanced_by(r1, 1) == Some(to)) by {
        reveal_with_fuel(advanced_by, 2);
    }
    lemma_reaches_after(r1, 1, to);
    lemma_reaches_then(r, r1, to);
}

/// The machine runs a decision on the integer on top of the operands.
pub proof fn lemma_decision_from(d: Decision, g: GenView, fin: GenView, ops: Seq<Op>, r: Running)
    requires
        d.otherwise == 0 || d.otherwise == 1,
        g.has_room(decision_size(d), 2),
        runs(fin, ops, r),
        fin.keeps(d.lowered(g)),
        r.frame.cursor == g.ops.len(),
        then_decided(d, Some(store_of(r))) is Some,
    ensures
        reaches(
            r,
            placed(
                r.frame.function,
                (g.ops.len() + decision_size(d)) as int,
                then_decided(d, Some(store_of(r)))->0,
            ),
        ),
        runs(
            fin,
            ops,
            placed(
                r.frame.function,
                (g.ops.len() + decision_size(d)) as int,
                then_decided(d, Some(store_of(r)))->0,
            ),
        ),
{
    let x = r.frame.stack.top(0)->Integer_0;
    let rest = r.frame.stack.popped(1).stack;
    assert(r.frame.stack.stack =~= rest.push(Value::Integer(x)));
    lemma_decision_runs(d, g, fin, ops, r, x, rest);
    let to = moved(
        r,
        (g.ops.len() + decision_size(d)) as int,
        rest.push(Value::Integer(decided(d, x))),
    );
    assert(to == placed(
        r.frame.function,
        (g.ops.len() + decision_size(d)) as int,
        then_decided(d, Some(store_of(r)))->0,
    ));
    lemma_reaches_after(r, super::meaning::decision_cost(d, x), to);
}

/// The machine runs a comparison: the operands, `Cmp`, and the decision on
/// the sign.
pub proof fn lemma_compared(
    e: Expr,
    parts: Seq<Expr>,
    d: Decision,
    g: GenView,
    fin: GenView,
    ops: Seq<Op>,
    r: Running,
)
    requires
        forall|i: int| 0 <= i < parts.len() ==> part_of(e, #[trigger] parts[i]),
        d.otherwise == 0 || d.otherwise == 1,
        e.lowered(g) == d.lowered(all_lowered(parts, g).push(Op::Cmp)),
        emitted(e) == all_emitted(parts) + 1 + decision_size(d),
        labelled(e) == all_labelled(parts) + 2,
        evaluated(e, g.vars, r.frame.function, store_of(r)) == then_decided(
            d,
            then_applied(
                Op::Cmp,
                r.frame.function,
                all_evaluated(parts, g.vars, r.frame.function, store_of(r)),
            ),
        ),
        evaluated(e, g.vars, r.frame.function, store_of(r)) is Some,
        g.has_room(emitted(e), labelled(e)),
        runs(fin, ops, r),
        fin.keeps(e.lowered(g)),
        r.frame.cursor == g.ops.len(),
    ensures
        reaches(r, evaluated_frame(e, g, r)),
        runs(fin, ops, evaluated_frame(e, g, r)),
    decreases e, 1nat,
{
    let g1 = all_lowered(parts, g);
    let g2 = g1.push(Op::Cmp);
    super::meaning::lemma_all_lowered_shape(parts, g);
    lemma_decision_shape(d, g2);
    lemma_kept(g2, d.lowered(g2), fin);
    lemma_kept(g1, g2, fin);
    lemma_operands(e, parts, g, fin, ops, r);
    let r1 = all_evaluated_frame(parts, g, r);
    lemma_finish(Op::Cmp, g1, fin, ops, r1);
    let r2 = placed(
        r.frame.function,
        (g1.ops.len() + 1) as int,
        applied(Op::Cmp, r.frame.function, store_of(r1))->0,
    );
    assert(advanced_by(r1, 1) == Some(r2)) by {
        reveal_with_fuel(advanced_by, 2);
    }
    lemma_reaches_after(r1, 1, r2);
    lemma_reaches_then(r, r1, r2);
    lemma_decision_from(d, g2, fin, ops, r2);
    lemma_reaches_then(r, r2, evaluated_frame(e, g, r));
}

/// How many operands the instruction of an expression takes off the stack
/// before it puts its one result there.
pub open spec fn operands_of(op: Op) -> Option<int> {
    match op {
        Op::LiteralCreate(_) | Op::StackLoad(_) => Some(0),
        Op::Neg | Op::Not | Op::IntToReal | Op::Floor | Op::Ceil | Op::Trunc | Op::Round
        | Op::SeqLen | Op::SeqToList | Op::TupleFromList | Op::TupleWeakRef
        | Op::TupleWeakUpgrade | Op::TableCreate | Op::ListPop | Op::BufferCreate => Some(1),
        Op::Add | Op::Sub | Op::Mul | Op::Div | Op::Rem | Op::Shl | Op::Shr | Op::And | Op::Or
        | Op::Xor | Op::Cmp | Op::SeqGet => Some(2),
        Op::ListGetSlice | Op::BufferGetSlice => Some(3),
        Op::TupleCreate(n) | Op::ListCreate(n) => Some(n as int),
        _ => None,
    }
}

/// Whether a store comes from `s` by taking `n` operands off and putting one
/// value on: the operands below and the local slots are as they were.
pub open spec fn replaces(out: Store, s: Store, n: int) -> bool {
    &&& 0 <= n <= s.stack.stack.len()
    &&& out.stack.locals == s.stack.locals
    &&& out.stack.stack.len() == s.stack.stack.len() - n + 1
    &&& out.stack.stack.subrange(0, s.stack.stack.len() - n) == s.stack.stack.subrange(
        0,
        s.stack.stack.len() - n,
    )
}

/// The instruction of an expression takes its operands and leaves one value.
pub proof fn lemma_applied_replaces(op: Op, f: FuncVal, s: Store)
    requires
        operands_of(op) is Some,
        applied(op, f, s) is Some,
    ensures
        replaces(applied(op, f, s)->0, s, operands_of(op)->0),
        (applied(op, f, s)->0).heap.function(f) == s.heap.function(f),
{
    reveal(applied);
    let out = applied(op, f, s)->0;
    let n = operands_of(op)->0;
    let m = s.stack;
    if op == Op::Not {
        // The complement of a machine integer is a machine integer.
        let x = m.top(0)->Integer_0;
        assert(-0x8000_0000_0000_0000 <= !x <= 0x7fff_ffff_ffff_ffff) by (bit_vector);
    }
    assert(out.stack.stack.subrange(0, m.stack.len() - n) =~= m.stack.subrange(
        0,
        m.stack.len() - n,
    ));
}

/// Whether a store comes from `s` by putting `n` values on the operands:
/// the operands that were there and the local slots are as they were, and
/// the function `f` is in the arena as it was.
pub open spec fn adds(out: Store, s: Store, n: int, f: FuncVal) -> bool {
    &&& out.stack.locals == s.stack.locals
    &&& out.stack.stack.len() == s.stack.stack.len() + n
    &&& out.stack.stack.subrange(0, s.stack.stack.len() as int) == s.stack.stack
    &&& out.heap.function(f) == s.heap.function(f)
}

/// An evaluation leaves exactly one value.
///
/// Where the evaluation of an expression has a result, the operands are
/// those that were there with one value on top of them, the local slots are
/// as they were, and the function that runs is in the arena as it was.
pub proof fn lemma_evaluated_adds_one(e: Expr, vars: Map<Var, u8>, f: FuncVal, s: Store)
    requires
        evaluated(e, vars, f, s) is Some,
    ensures
        adds(evaluated(e, vars, f, s)->0, s, 1, f),
    decreases e, 3nat,
{
    match e {
        Expr::LiteralValue(_) | Expr::Var(_) | Expr::ModuleRef => lemma_leaf_adds_one(e, vars, f, s),
        Expr::BinaryOp(_) => lemma_binary_adds_one(e, vars, f, s),
        Expr::UnaryOp(_) => lemma_unary_adds_one(e, vars, f, s),
        Expr::SeqIndex { .. } | Expr::SeqLen { .. } | Expr::SeqToList { .. } => lemma_sequence_adds_one(e, vars, f, s),
        Expr::TupleCreate(_) | Expr::TupleFromList(_) | Expr::TupleWeakRef(_) | Expr::TupleWeakUpgrade(_) | Expr::TableCreate(_) => lemma_tuple_adds_one(e, vars, f, s),
        Expr::ListCreate(_) | Expr::ListGetSlice { .. } | Expr::ListPop(_) => lemma_list_adds_one(e, vars, f, s),
        Expr::BufferCreate(_) | Expr::BufferGetSlice { .. } => lemma_buffer_adds_one(e, vars, f, s),
        Expr::Call { .. } => {},
    }
}

/// A literal, a variable and the module leave one value.
pub proof fn lemma_leaf_adds_one(e: Expr, vars: Map<Var, u8>, f: FuncVal, s: Store)
    requires
        e is LiteralValue || e is Var || e is ModuleRef,
        evaluated(e, vars, f, s) is Some,
    ensures
        adds(evaluated(e, vars, f, s)->0, s, 1, f),
    decreases e, 2nat,
{
    let none = Seq::<Expr>::empty();
    match e {
        Expr::LiteralValue(l) => lemma_straight_adds(e, none, Op::LiteralCreate(l.inner), vars, f, s),
        Expr::Var(v) => lemma_straight_adds(e, none, Op::StackLoad(vars[v.inner]), vars, f, s),
        Expr::ModuleRef => lemma_straight_adds(e, none, Op::StackLoad(0), vars, f, s),
        _ => {},
    }
}

/// An operator on two operands leaves one value.
pub proof fn lemma_binary_adds_one(e: Expr, vars: Map<Var, u8>, f: FuncVal, s: Store)
    requires
        e is BinaryOp,
        evaluated(e, vars, f, s) is Some,
    ensures
        adds(evaluated(e, vars, f, s)->0, s, 1, f),
    decreases e, 2nat,
{
    let g = GenView::fresh();
    match e {
        Expr::BinaryOp(b) => match b.op_type {
            BinaryOpType::LogicAnd | BinaryOpType::LogicOr => {
                lemma_evaluated_adds_one(*b.lhs, vars, f, s);
                let s1 = evaluated(*b.lhs, vars, f, s)->0;
                let (x, t1) = tested(Some(s1), f)->0;
                lemma_tested_adds(s, s1, f);
                if !decides(b.op_type, x) {
                    lemma_evaluated_adds_one(*b.rhs, vars, f, t1);
                    let s2 = evaluated(*b.rhs, vars, f, t1)->0;
                    lemma_tested_adds(t1, s2, f);
                    let (y, t2) = tested(Some(s2), f)->0;
                    lemma_adds_chain(s, t1, t2, f);
                }
            },
            _ => {
                lemma_pair(*b.lhs, *b.rhs, g, vars, f, s);
                match b.op_type.plain_op() {
                    Some(op) => lemma_straight_adds(e, seq![*b.lhs, *b.rhs], op, vars, f, s),
                    None => {
                        let parts = seq![*b.lhs, *b.rhs];
                        lemma_all_evaluated_adds(e, parts, vars, f, s);
                        let mid = all_evaluated(parts, vars, f, s)->0;
                        lemma_applied_replaces(Op::Cmp, f, mid);
                        lemma_decided_adds(
                            b.op_type.decision()->0,
                            applied(Op::Cmp, f, mid)->0,
                            f,
                        );
                        lemma_adds_up(s, mid, applied(Op::Cmp, f, mid)->0, 2, f);
                        lemma_adds_up(s, applied(Op::Cmp, f, mid)->0, evaluated(e, vars, f, s)->0, 1, f);
                    },
                }
            },
        },
        _ => {},
    }
}

/// An operator on one operand leaves one value.
pub proof fn lemma_unary_adds_one(e: Expr, vars: Map<Var, u8>, f: FuncVal, s: Store)
    requires
        e is UnaryOp,
        evaluated(e, vars, f, s) is Some,
    ensures
        adds(evaluated(e, vars, f, s)->0, s, 1, f),
    decreases e, 2nat,
{
    let g = GenView::fresh();
    match e {
        Expr::UnaryOp(u) => {
            lemma_single(*u.expr, g, vars, f, s);
            match u.op_type.plain_op() {
                Some(op) => lemma_straight_adds(e, seq![*u.expr], op, vars, f, s),
                None => {
                    lemma_evaluated_adds_one(*u.expr, vars, f, s);
                    lemma_tested_adds(s, evaluated(*u.expr, vars, f, s)->0, f);
                },
            }
        },
        _ => {},
    }
}

/// What reads a sequence leaves one value.
pub proof fn lemma_sequence_adds_one(e: Expr, vars: Map<Var, u8>, f: FuncVal, s: Store)
    requires
        e is SeqIndex || e is SeqLen || e is SeqToList,
        evaluated(e, vars, f, s) is Some,
    ensures
        adds(evaluated(e, vars, f, s)->0, s, 1, f),
    decreases e, 2nat,
{
    let g = GenView::fresh();
    match e {
        Expr::SeqIndex { seq, index } => {
            lemma_pair(*seq, *index, g, vars, f, s);
            lemma_straight_adds(e, seq![*seq, *index], Op::SeqGet, vars, f, s);
        },
        Expr::SeqLen { seq } => {
            lemma_single(*seq, g, vars, f, s);
            lemma_straight_adds(e, seq![*seq], Op::SeqLen, vars, f, s);
        },
        Expr::SeqToList { seq } => {
            lemma_single(*seq, g, vars, f, s);
            lemma_straight_adds(e, seq![*seq], Op::SeqToList, vars, f, s);
        },
        _ => {},
    }
}

/// What makes a tuple, a weak handle or a table leaves one value.
pub proof fn lemma_tuple_adds_one(e: Expr, vars: Map<Var, u8>, f: FuncVal, s: Store)
    requires
        e is TupleCreate || e is TupleFromList || e is TupleWeakRef || e is TupleWeakUpgrade || e is TableCreate,
        evaluated(e, vars, f, s) is Some,
    ensures
        adds(evaluated(e, vars, f, s)->0, s, 1, f),
    decreases e, 2nat,
{
    let g = GenView::fresh();
    match e {
        Expr::TupleCreate(items) => {
            lemma_straight_adds(e, items@, Op::TupleCreate(items@.len() as u8), vars, f, s);
        },
        Expr::TupleFromList(a) => {
            lemma_single(*a, g, vars, f, s);
            lemma_straight_adds(e, seq![*a], Op::TupleFromList, vars, f, s);
        },
        Expr::TupleWeakRef(a) => {
            lemma_single(*a, g, vars, f, s);
            lemma_straight_adds(e, seq![*a], Op::TupleWeakRef, vars, f, s);
        },
        Expr::TupleWeakUpgrade(a) => {
            lemma_single(*a, g, vars, f, s);
            lemma_straight_adds(e, seq![*a], Op::TupleWeakUpgrade, vars, f, s);
        },
        Expr::TableCreate(a) => {
            lemma_single(*a, g, vars, f, s);
            lemma_straight_adds(e, seq![*a], Op::TableCreate, vars, f, s);
        },
        _ => {},
    }
}

/// What makes a list or takes from one leaves one value.
pub proof fn lemma_list_adds_one(e: Expr, vars: Map<Var, u8>, f: FuncVal, s: Store)
    requires
        e is ListCreate || e is ListGetSlice || e is ListPop,
        evaluated(e, vars, f, s) is Some,
    ensures
        adds(evaluated(e, vars, f, s)->0, s, 1, f),
    decreases e, 2nat,
{
    let g = GenView::fresh();
    match e {
        Expr::ListCreate(items) => {
            lemma_straight_adds(e, items@, Op::ListCreate(items@.len() as u8), vars, f, s);
        },
        Expr::ListGetSlice { list, a, b } => {
            lemma_triple(*list, *a, *b, g, vars, f, s);
            lemma_straight_adds(e, seq![*list, *a, *b], Op::ListGetSlice, vars, f, s);
        },
        Expr::ListPop(a) => {
            lemma_single(*a, g, vars, f, s);
            lemma_straight_adds(e, seq![*a], Op::ListPop, vars, f, s);
        },
        _ => {},
    }
}

/// What makes a buffer or takes from one leaves one value.
pub proof fn lemma_buffer_adds_one(e: Expr, vars: Map<Var, u8>, f: FuncVal, s: Store)
    requires
        e is BufferCreate || e is BufferGetSlice,
        evaluated(e, vars, f, s) is Some,
    ensures
        adds(evaluated(e, vars, f, s)->0, s, 1, f),
    decreases e, 2nat,
{
    let g = GenView::fresh();
    match e {
        Expr::BufferGetSlice { buffer, a, b } => {
            lemma_triple(*buffer, *a, *b, g, vars, f, s);
            lemma_straight_adds(e, seq![*buffer, *a, *b], Op::BufferGetSlice, vars, f, s);
        },
        Expr::BufferCreate(a) => {
            lemma_single(*a, g, vars, f, s);
            lemma_straight_adds(e, seq![*a], Op::BufferCreate, vars, f, s);
        },
        _ => {},
    }
}

/// A decision replaces the integer on top.
pub proof fn lemma_decided_adds(d: Decision, s: Store, f: FuncVal)
    requires
        then_decided(d, Some(s)) is Some,
    ensures
        replaces(then_decided(d, Some(s))->0, s, 1),
        (then_decided(d, Some(s))->0).heap == s.heap,
{
    let out = then_decided(d, Some(s))->0;
    assert(out.stack.stack.subrange(0, s.stack.stack.len() - 1) =~= s.stack.stack.subrange(
        0,
        s.stack.stack.len() - 1,
    ));
}

/// Putting `n` values on and replacing them by one puts one value on.
pub proof fn lemma_adds_up(s: Store, mid: Store, out: Store, n: int, f: FuncVal)
    requires
        adds(mid, s, n, f),
        replaces(out, mid, n),
        out.heap.function(f) == mid.heap.function(f),
    ensures
        adds(out, s, 1, f),
{
    let k = s.stack.stack.len() as int;
    assert(out.stack.stack.subrange(0, k) =~= s.stack.stack) by {
        assert forall|i: int| 0 <= i < k implies out.stack.stack[i] == s.stack.stack[i] by {
            assert(out.stack.stack.subrange(0, k)[i] == out.stack.stack[i]);
            assert(mid.stack.stack.subrange(0, k)[i] == mid.stack.stack[i]);
        }
    }
}

/// The operands of an expression leave one value each.
pub proof fn lemma_all_evaluated_adds(
    e: Expr,
    parts: Seq<Expr>,
    vars: Map<Var, u8>,
    f: FuncVal,
    s: Store,
)
    requires
        forall|i: int| 0 <= i < parts.len() ==> part_of(e, #[trigger] parts[i]),
        all_evaluated(parts, vars, f, s) is Some,
    ensures
        adds(all_evaluated(parts, vars, f, s)->0, s, parts.len() as int, f),
    decreases e, 0nat, parts.len(),
{
    if parts.len() == 0 {
        assert(s.stack.stack.subrange(0, s.stack.stack.len() as int) =~= s.stack.stack);
    } else {
        let first = parts.drop_last();
        assert forall|i: int| 0 <= i < first.len() implies part_of(e, #[trigger] first[i]) by {
            assert(first[i] == parts[i]);
        }
        lemma_all_evaluated_adds(e, first, vars, f, s);
        let mid = all_evaluated(first, vars, f, s)->0;
        assert(part_of(e, parts[parts.len() - 1]));
        lemma_evaluated_adds_one(parts.last(), vars, f, mid);
        let out = all_evaluated(parts, vars, f, s)->0;
        let k = s.stack.stack.len() as int;
        assert(out.stack.stack.subrange(0, k) =~= s.stack.stack) by {
            assert forall|i: int| 0 <= i < k implies out.stack.stack[i] == s.stack.stack[i] by {
                assert(out.stack.stack.subrange(0, mid.stack.stack.len() as int)[i]
                    == out.stack.stack[i]);
                assert(mid.stack.stack.subrange(0, k)[i] == mid.stack.stack[i]);
            }
        }
    }
}

/// An expression that is its operands and one instruction leaves one value.
pub proof fn lemma_straight_adds(
    e: Expr,
    parts: Seq<Expr>,
    op: Op,
    vars: Map<Var, u8>,
    f: FuncVal,
    s: Store,
)
    requires
        forall|i: int| 0 <= i < parts.len() ==> part_of(e, #[trigger] parts[i]),
        operands_of(op) == Some(parts.len() as int),
        evaluated(e, vars, f, s) == then_applied(op, f, all_evaluated(parts, vars, f, s)),
        evaluated(e, vars, f, s) is Some,
    ensures
        adds(evaluated(e, vars, f, s)->0, s, 1, f),
    decreases e, 1nat,
{
    lemma_all_evaluated_adds(e, parts, vars, f, s);
    let mid = all_evaluated(parts, vars, f, s)->0;
    lemma_applied_replaces(op, f, mid);
    lemma_adds_up(s, mid, applied(op, f, mid)->0, parts.len() as int, f);
}

/// Taking the integer off that an evaluation left gives the operands that
/// were there; putting an integer on them puts one value on.
pub proof fn lemma_tested_adds(s: Store, out: Store, f: FuncVal)
    requires
        adds(out, s, 1, f),
        tested(Some(out), f) is Some,
    ensures
        adds((tested(Some(out), f)->0).1, s, 0, f),
        forall|i: i64| adds(#[trigger] with_integer((tested(Some(out), f)->0).1, i), s, 1, f),
{
    let t = (tested(Some(out), f)->0).1;
    let k = s.stack.stack.len() as int;
    assert(t.stack.stack =~= s.stack.stack);
    assert(t.stack.stack.subrange(0, k) =~= s.stack.stack);
    assert forall|i: i64| adds(#[trigger] with_integer(t, i), s, 1, f) by {
        assert(with_integer(t, i).stack.stack.subrange(0, k) =~= s.stack.stack);
    }
}

/// Leaving the operands as they were, twice, leaves them as they were.
pub proof fn lemma_adds_chain(s: Store, mid: Store, out: Store, f: FuncVal)
    requires
        adds(mid, s, 0, f),
        adds(out, mid, 0, f),
    ensures
        adds(out, s, 0, f),
        forall|i: i64| adds(#[trigger] with_integer(out, i), s, 1, f),
{
    let k = s.stack.stack.len() as int;
    assert(mid.stack.stack =~= s.stack.stack);
    assert(out.stack.stack =~= mid.stack.stack);
    assert(out.stack.stack.subrange(0, k) =~= s.stack.stack);
    assert forall|i: i64| adds(#[trigger] with_integer(out, i), s, 1, f) by {
        assert(with_integer(out, i).stack.stack.subrange(0, k) =~= s.stack.stack);
    }
}

/// One more instruction that keeps the machine in the frame.
pub proof fn lemma_reaches_step(r: Running, mid: Running, to: Running)
    requires
        reaches(r, mid),
        advanced(mid) == Some(to),
    ensures
        reaches(r, to),
{
    assert(advanced_by(mid, 1) == Some(to)) by {
        reveal_with_fuel(advanced_by, 2);
    }
    lemma_reaches_after(mid, 1, to);
    lemma_reaches_then(r, mid, to);
}

/// The machine runs `JumpZero` on whatever value is on top.
pub proof fn lemma_step_test(fin: GenView, ops: Seq<Op>, r: Running, l: int, k: int, target: int)
    requires
        runs(fin, ops, r),
        0 <= l < fin.labels.len(),
        0 <= k < fin.labels[l].jumps.len(),
        fin.labels[l].jumps[k] == r.frame.cursor,
        fin.labels[l].target == Some(target as usize),
        0 <= target <= usize::MAX,
        fin.ops[r.frame.cursor as int] == Op::JumpZero(0),
        tested(Some(store_of(r)), r.frame.function) is Some,
    ensures
        advanced(r) == Some(
            placed(
                r.frame.function,
                if (tested(Some(store_of(r)), r.frame.function)->0).0 {
                    target
                } else {
                    r.frame.cursor + 1
                },
                (tested(Some(store_of(r)), r.frame.function)->0).1,
            ),
        ),
        runs(
            fin,
            ops,
            placed(
                r.frame.function,
                if (tested(Some(store_of(r)), r.frame.function)->0).0 {
                    target
                } else {
                    r.frame.cursor + 1
                },
                (tested(Some(store_of(r)), r.frame.function)->0).1,
            ),
        ),
{
    lemma_jump_at(fin, ops, l, k, r.frame.cursor as int, target);
}

/// The machine runs a test and what follows it: a `JumpZero` at `at`, the
/// literal `miss`, a jump behind the whole, and the literal `hit`, to which
/// the `JumpZero` leads. The value on top is replaced by `hit` if it counts
/// as zero, else by `miss`.
#[verifier::rlimit(50)]
pub proof fn lemma_test_runs(
    fin: GenView,
    ops: Seq<Op>,
    r: Running,
    at: int,
    label_hit: int,
    k: int,
    label_next: int,
    miss: i64,
    hit: i64,
)
    requires
        runs(fin, ops, r),
        r.frame.cursor == at,
        0 <= at,
        at + 4 <= fin.ops.len(),
        0 <= label_hit < fin.labels.len(),
        0 <= k < fin.labels[label_hit].jumps.len(),
        fin.labels[label_hit].jumps[k] == at,
        fin.labels[label_hit].target == Some((at + 3) as usize),
        0 <= label_next < fin.labels.len(),
        fin.labels[label_next].jumps.len() >= 1,
        fin.labels[label_next].jumps[0] == at + 2,
        fin.labels[label_next].target == Some((at + 4) as usize),
        fin.ops[at] == Op::JumpZero(0),
        fin.ops[at + 1] == Op::LiteralCreate(LiteralValue::Integer(miss)),
        fin.ops[at + 2] == Op::Jump(0),
        fin.ops[at + 3] == Op::LiteralCreate(LiteralValue::Integer(hit)),
        tested(Some(store_of(r)), r.frame.function) is Some,
    ensures
        reaches(
            r,
            placed(
                r.frame.function,
                at + 4,
                with_integer(
                    (tested(Some(store_of(r)), r.frame.function)->0).1,
                    if (tested(Some(store_of(r)), r.frame.function)->0).0 {
                        hit
                    } else {
                        miss
                    },
                ),
            ),
        ),
        runs(
            fin,
            ops,
            placed(
                r.frame.function,
                at + 4,
                with_integer(
                    (tested(Some(store_of(r)), r.frame.function)->0).1,
                    if (tested(Some(store_of(r)), r.frame.function)->0).0 {
                        hit
                    } else {
                        miss
                    },
                ),
            ),
        ),
{
    let (zero, s1) = tested(Some(store_of(r)), r.frame.function)->0;
    let rest = s1.stack.stack;
    assert(advanced_by(r, 0) == Some(r));
    lemma_step_test(fin, ops, r, label_hit, k, at + 3);
    if zero {
        let r1 = placed(r.frame.function, at + 3, s1);
        lemma_reaches_step(r, r, r1);
        lemma_step_literal(fin, ops, r1, hit);
        let r2 = moved(r1, at + 4, rest.push(Value::Integer(hit)));
        lemma_reaches_step(r, r1, r2);
    } else {
        let r1 = placed(r.frame.function, at + 1, s1);
        lemma_reaches_step(r, r, r1);
        lemma_step_literal(fin, ops, r1, miss);
        let r2 = moved(r1, at + 2, rest.push(Value::Integer(miss)));
        lemma_reaches_step(r, r1, r2);
        lemma_step_jump(fin, ops, r2, label_next, 0, at + 4);
        let r3 = moved(r2, at + 4, rest.push(Value::Integer(miss)));
        lemma_reaches_step(r, r2, r3);
    }
}

/// The machine runs a lowered `LogicNot`.
#[verifier::rlimit(50)]
pub proof fn lemma_negated(e: Expr, a: Expr, g: GenView, fin: GenView, ops: Seq<Op>, r: Running)
    requires
        part_of(e, a),
        e.lowered(g) == logic_not().lowered(a.lowered(g)),
        emitted(e) == emitted(a) + 4,
        labelled(e) == labelled(a) + 2,
        evaluated(e, g.vars, r.frame.function, store_of(r)) == then_negated(
            evaluated(a, g.vars, r.frame.function, store_of(r)),
            r.frame.function,
        ),
        evaluated(e, g.vars, r.frame.function, store_of(r)) is Some,
        g.has_room(emitted(e), labelled(e)),
        runs(fin, ops, r),
        fin.keeps(e.lowered(g)),
        r.frame.cursor == g.ops.len(),
    ensures
        reaches(r, evaluated_frame(e, g, r)),
        runs(fin, ops, evaluated_frame(e, g, r)),
    decreases e, 1nat,
{
    let d = logic_not();
    let g1 = a.lowered(g);
    lemma_lowered_shape(a, g);
    lemma_decision_shape(d, g1);
    let low = d.lowered(g1);
    lemma_kept(g1, low, fin);
    lemma_lowering_evaluates(a, g, fin, ops, r);
    let r1 = evaluated_frame(a, g, r);
    let at = g1.ops.len() as int;
    let label_hit = g1.labels.len() as int;
    let label_next = (g1.labels.len() + 1) as int;
    assert(low.labels[label_hit].target == Some((at + 3) as usize));
    assert(low.labels[label_hit].jumps =~= seq![at as usize]);
    assert(low.labels[label_next].target == Some((at + 4) as usize));
    assert(low.labels[label_next].jumps =~= seq![(at + 2) as usize]);
    assert(low.ops[at] == Op::JumpZero(0));
    assert(low.ops[at + 1] == Op::LiteralCreate(LiteralValue::Integer(0)));
    assert(low.ops[at + 2] == Op::Jump(0));
    assert(low.ops[at + 3] == Op::LiteralCreate(LiteralValue::Integer(1)));
    assert(fin.labels[label_hit].jumps[0] == low.labels[label_hit].jumps[0]);
    assert(fin.labels[label_next].jumps[0] == low.labels[label_next].jumps[0]);
    assert(fin.labels[label_hit].target == low.labels[label_hit].target);
    assert(fin.labels[label_next].target == low.labels[label_next].target);
    lemma_test_runs(fin, ops, r1, at, label_hit, 0, label_next, 0, 1);
    lemma_reaches_then(r, r1, evaluated_frame(e, g, r));
}

/// The machine runs a lowered `LogicAnd`.
#[verifier::rlimit(50)]
pub proof fn lemma_and_evaluates(
    e: Expr,
    lhs: Expr,
    rhs: Expr,
    g: GenView,
    fin: GenView,
    ops: Seq<Op>,
    r: Running,
)
    requires
        part_of(e, lhs),
        part_of(e, rhs),
        e.lowered(g) == truth_tail(
            rhs.lowered(and_middle(g, lhs.lowered(g.create_label().create_label()))),
            g.next_label(),
            (g.labels.len() + 1) as usize,
        ),
        emitted(e) == emitted(lhs) + emitted(rhs) + 5,
        labelled(e) == labelled(lhs) + labelled(rhs) + 2,
        evaluated(e, g.vars, r.frame.function, store_of(r)) == logic_evaluated(
            BinaryOpType::LogicAnd,
            lhs,
            rhs,
            g.vars,
            r.frame.function,
            store_of(r),
        ),
        evaluated(e, g.vars, r.frame.function, store_of(r)) is Some,
        g.has_room(emitted(e), labelled(e)),
        runs(fin, ops, r),
        fin.keeps(e.lowered(g)),
        r.frame.cursor == g.ops.len(),
    ensures
        reaches(r, evaluated_frame(e, g, r)),
        runs(fin, ops, evaluated_frame(e, g, r)),
    decreases e, 1nat,
{
    let f = r.frame.function;
    let g0 = g.create_label().create_label();
    lemma_lowered_shape(lhs, g0);
    let a = lhs.lowered(g0);
    let m = and_middle(g, a);
    lemma_lowered_shape(rhs, m);
    let bb = rhs.lowered(m);
    lemma_and_keeps(g, a, bb, emitted(lhs), labelled(lhs), emitted(rhs), labelled(rhs), fin);
    lemma_and_layout(g, a, bb, emitted(lhs), labelled(lhs), emitted(rhs), labelled(rhs), fin);
    let pa = a.ops.len() as int;
    let pb = bb.ops.len() as int;
    let label_false = g.labels.len() as int;
    let label_next = (g.labels.len() + 1) as int;
    lemma_lowering_evaluates(lhs, g0, fin, ops, r);
    let r1 = evaluated_frame(lhs, g0, r);
    let (zero, s1) = tested(Some(store_of(r1)), f)->0;
    lemma_step_test(fin, ops, r1, label_false, 0, pb + 3);
    if zero {
        let r2 = placed(f, pb + 3, s1);
        lemma_reaches_step(r, r1, r2);
        lemma_step_literal(fin, ops, r2, 0);
        let r3 = moved(r2, pb + 4, s1.stack.stack.push(Value::Integer(0)));
        lemma_reaches_step(r, r2, r3);
        assert(r3 == evaluated_frame(e, g, r));
    } else {
        let r2 = placed(f, pa + 1, s1);
        lemma_reaches_step(r, r1, r2);
        lemma_lowering_evaluates(rhs, m, fin, ops, r2);
        let r3 = evaluated_frame(rhs, m, r2);
        lemma_reaches_then(r, r2, r3);
        lemma_test_runs(fin, ops, r3, pb, label_false, 1, label_next, 1, 0);
        lemma_reaches_then(r, r3, evaluated_frame(e, g, r));
    }
}

/// The machine runs a lowered `LogicOr`.
#[verifier::rlimit(50)]
pub proof fn lemma_or_evaluates(
    e: Expr,
    lhs: Expr,
    rhs: Expr,
    g: GenView,
    fin: GenView,
    ops: Seq<Op>,
    r: Running,
)
    requires
        part_of(e, lhs),
        part_of(e, rhs),
        e.lowered(g) == or_end(
            g,
            rhs.lowered(
                or_middle(
                    g,
                    lhs.lowered(g.create_label().create_label().create_label().create_label()),
                ),
            ),
        ),
        emitted(e) == emitted(lhs) + emitted(rhs) + 6,
        labelled(e) == labelled(lhs) + labelled(rhs) + 4,
        evaluated(e, g.vars, r.frame.function, store_of(r)) == logic_evaluated(
            BinaryOpType::LogicOr,
            lhs,
            rhs,
            g.vars,
            r.frame.function,
            store_of(r),
        ),
        evaluated(e, g.vars, r.frame.function, store_of(r)) is Some,
        g.has_room(emitted(e), labelled(e)),
        runs(fin, ops, r),
        fin.keeps(e.lowered(g)),
        r.frame.cursor == g.ops.len(),
    ensures
        reaches(r, evaluated_frame(e, g, r)),
        runs(fin, ops, evaluated_frame(e, g, r)),
    decreases e, 1nat,
{
    let f = r.frame.function;
    let g0 = g.create_label().create_label().create_label().create_label();
    lemma_lowered_shape(lhs, g0);
    let a = lhs.lowered(g0);
    let m = or_middle(g, a);
    lemma_lowered_shape(rhs, m);
    let bb = rhs.lowered(m);
    lemma_or_keeps(g, a, bb, emitted(lhs), labelled(lhs), emitted(rhs), labelled(rhs), fin);
    lemma_or_layout(g, a, bb, emitted(lhs), labelled(lhs), emitted(rhs), labelled(rhs), fin);
    let pa = a.ops.len() as int;
    let pb = bb.ops.len() as int;
    let label_rhs = g.labels.len() as int;
    let label_true = (g.labels.len() + 1) as int;
    let label_false = (g.labels.len() + 2) as int;
    let label_next = (g.labels.len() + 3) as int;
    lemma_lowering_evaluates(lhs, g0, fin, ops, r);
    let r1 = evaluated_frame(lhs, g0, r);
    let (zero, s1) = tested(Some(store_of(r1)), f)->0;
    let rest = s1.stack.stack;
    lemma_step_test(fin, ops, r1, label_rhs, 0, pa + 2);
    if !zero {
        let r2 = placed(f, pa + 1, s1);
        lemma_reaches_step(r, r1, r2);
        lemma_step_jump(fin, ops, r2, label_true, 0, pb + 1);
        let r3 = moved(r2, pb + 1, rest);
        lemma_reaches_step(r, r2, r3);
        lemma_step_literal(fin, ops, r3, 1);
        let r4 = moved(r3, pb + 2, rest.push(Value::Integer(1)));
        lemma_reaches_step(r, r3, r4);
        lemma_step_jump(fin, ops, r4, label_next, 0, pb + 4);
        let r5 = moved(r4, pb + 4, rest.push(Value::Integer(1)));
        lemma_reaches_step(r, r4, r5);
        assert(r5 == evaluated_frame(e, g, r));
    } else {
        let r2 = placed(f, pa + 2, s1);
        lemma_reaches_step(r, r1, r2);
        lemma_lowering_evaluates(rhs, m, fin, ops, r2);
        let r3 = evaluated_frame(rhs, m, r2);
        lemma_reaches_then(r, r2, r3);
        lemma_test_runs(fin, ops, r3, pb, label_false, 0, label_next, 1, 0);
        lemma_reaches_then(r, r3, evaluated_frame(e, g, r));
    }
}

/// A function that returns an expression returns what the evaluation of the
/// expression leaves.
///
/// Take a function without arguments whose body is `Return(e)`, where `e`
/// reads no variable and its evaluation in the first frame of the function
/// has a result, and the instructions `ops` that `compile` makes of it. A
/// machine that starts a frame for these instructions finishes with the
/// value that the evaluation left on top of the operands.
#[verifier::rlimit(50)]
pub proof fn lemma_return_evaluates(
    f: super::function::Function,
    e: Expr,
    ops: Seq<Op>,
    frame: FrameView,
    heap: HeapView,
)
    requires
        f.args@.len() == 0,
        block_view(f.body@) == seq![StmtV::Return(e)],
        e.vars().len() == 0,
        evaluated(e, Map::empty(), frame.function, Store { stack: frame.stack, heap }) is Some,
        emitted(e) + 1 <= i32::MAX,
        labelled(e) <= usize::MAX,
        f.lowered().wf(),
        f.lowered().finalizes_to(ops),
        heap.function(frame.function) is Some,
        (heap.function(frame.function)->0).1 == ops,
        frame.cursor == 0,
    ensures
        exists|n: nat|
            (#[trigger] ran(seq![frame], heap, n)).result == Ok::<StateView, crate::bytecode::OpError>(
                StateView::Exited(
                    (evaluated(
                        e,
                        Map::empty(),
                        frame.function,
                        Store { stack: frame.stack, heap },
                    )->0).stack.top(0),
                ),
            ),
{
    let g = GenView::fresh();
    let s = Store { stack: frame.stack, heap };
    let out = evaluated(e, Map::empty(), frame.function, s)->0;
    super::meaning::lemma_return_lowered(f, e);
    let low = e.lowered(g);
    let fin = low.push(Op::Return);
    lemma_lowered_shape(e, g);
    assert(fin.can_finalize());
    assert(fin.keeps(low));
    let r = Running { frame, heap };
    lemma_lowering_evaluates(e, g, fin, ops, r);
    lemma_evaluated_adds_one(e, Map::empty(), frame.function, s);
    let to = evaluated_frame(e, g, r);
    let n = choose|n: nat| advanced_by(r, n) == Some(to);
    super::meaning::lemma_machine_advances(seq![frame], heap, n, 1, to);
    // The `Return` hands the value to the machine, which has no caller to
    // give it to.
    let frames = with_top(seq![frame], to.frame);
    lemma_plain_at(fin, ops, emitted(e) as int);
    assert(to.frame.stack.top(0) == out.stack.top(0));
    assert(to.frame.current(to.heap) == Some(Op::Return));
    assert(ran(frames, to.heap, 0).result is Ok);
    assert(ran(seq![frame], heap, n + 1).result == Ok::<StateView, crate::bytecode::OpError>(
        StateView::Exited(out.stack.top(0)),
    )) by {
        reveal_with_fuel(ran, 2);
    }
}

/// `Cmp` leaves an integer, so that a comparison has a result wherever its
/// two sides and `Cmp` have one.
pub proof fn lemma_compared_is_decided(d: Decision, f: FuncVal, s: Store)
    requires
        applied(Op::Cmp, f, s) is Some,
    ensures
        then_decided(d, applied(Op::Cmp, f, s)) is Some,
{
    reveal(applied);
}

} // verus!
