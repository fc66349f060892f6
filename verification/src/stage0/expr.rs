use vstd::prelude::*;
use crate::bytecode::{LiteralValue, Op};
use super::binaryop::BinaryOp;
use super::codegen::{CodeGenerator, GenView, Var};
use super::unaryop::UnaryOp;

verus! {

/// A piece of the tree together with its place in the source.
#[derive(Debug)]
pub struct Span<T> {
    pub span: (),
    pub inner: T,
}

impl<T: Copy> Clone for Span<T> {
    fn clone(&self) -> (r: Self)
        ensures
            r == *self,
    {
        *self
    }
}

impl<T: Copy> Copy for Span<T> {

}

/// An expression. Lowering one emits instructions that leave exactly one
/// value on the stack.
pub enum Expr {
    LiteralValue(Span<LiteralValue>),
    Var(Span<Var>),
    ModuleRef,
    BinaryOp(BinaryOp),
    UnaryOp(UnaryOp),
    Call { func: Box<Expr>, args: Vec<Expr> },
    SeqIndex { seq: Box<Expr>, index: Box<Expr> },
    SeqLen { seq: Box<Expr> },
    SeqToList { seq: Box<Expr> },
    TupleCreate(Vec<Expr>),
    TupleFromList(Box<Expr>),
    TupleWeakRef(Box<Expr>),
    TupleWeakUpgrade(Box<Expr>),
    TableCreate(Box<Expr>),
    ListCreate(Vec<Expr>),
    ListGetSlice { list: Box<Expr>, a: Box<Expr>, b: Box<Expr> },
    ListPop(Box<Expr>),
    BufferCreate(Box<Expr>),
    BufferGetSlice { buffer: Box<Expr>, a: Box<Expr>, b: Box<Expr> },
}

impl GenView {
    /// Whether this state comes from `before` by emitting an expression:
    /// instructions and labels were added, and nothing that was there changed.
    pub open spec fn grows_from(self, before: GenView) -> bool {
        &&& self.vars == before.vars
        &&& self.loops == before.loops
        &&& self.loop_stack == before.loop_stack
        &&& self.dropped == before.dropped
        &&& self.next_index == before.next_index
        &&& before.ops.len() <= self.ops.len()
        &&& forall|i: int| 0 <= i < before.ops.len() ==> self.ops[i] == before.ops[i]
        &&& before.labels.len() <= self.labels.len()
        &&& forall|i: int| 0 <= i < before.labels.len() ==> self.labels[i] == before.labels[i]
        &&& forall|i: int|
            before.labels.len() <= i < self.labels.len() ==> (#[trigger] self.labels[i]).target
                is Some
    }
}

impl Expr {
    /// Whether the expression can be lowered while `vars` are bound: each of
    /// its variables is bound, and no call, tuple or list has more than 255
    /// parts.
    pub open spec fn compilable(&self, vars: Map<Var, u8>) -> bool
        decreases self,
    {
        match self {
            Expr::LiteralValue(_) => true,
            Expr::Var(var) => vars.contains_key(var.inner),
            Expr::ModuleRef => true,
            Expr::BinaryOp(b) => b.lhs.compilable(vars) && b.rhs.compilable(vars),
            Expr::UnaryOp(u) => u.expr.compilable(vars),
            Expr::Call { func, args } => func.compilable(vars) && args@.len() <= 255
                && all_compilable(args@, vars),
            Expr::SeqIndex { seq, index } => seq.compilable(vars) && index.compilable(vars),
            Expr::SeqLen { seq } => seq.compilable(vars),
            Expr::SeqToList { seq } => seq.compilable(vars),
            Expr::TupleCreate(items) => items@.len() <= 255 && all_compilable(items@, vars),
            Expr::TupleFromList(e) => e.compilable(vars),
            Expr::TupleWeakRef(e) => e.compilable(vars),
            Expr::TupleWeakUpgrade(e) => e.compilable(vars),
            Expr::TableCreate(e) => e.compilable(vars),
            Expr::ListCreate(items) => items@.len() <= 255 && all_compilable(items@, vars),
            Expr::ListGetSlice { list, a, b } => list.compilable(vars) && a.compilable(vars)
                && b.compilable(vars),
            Expr::ListPop(e) => e.compilable(vars),
            Expr::BufferCreate(e) => e.compilable(vars),
            Expr::BufferGetSlice { buffer, a, b } => buffer.compilable(vars) && a.compilable(vars)
                && b.compilable(vars),
        }
    }

    /// The state of the generator after the expression was lowered from
    /// state `g`. Operands are lowered left to right, then the instruction
    /// that consumes them is emitted.
    pub open spec fn lowered(&self, g: GenView) -> GenView
        decreases self,
    {
        match self {
            Expr::LiteralValue(l) => g.push(Op::LiteralCreate(l.inner)),
            Expr::Var(var) => g.push_var_load(var.inner),
            Expr::ModuleRef => g.push(Op::StackLoad(0)),
            Expr::BinaryOp(b) => b.lowered(g),
            Expr::UnaryOp(u) => u.lowered(g),
            Expr::Call { func, args } => all_lowered(args@, func.lowered(g)).push(
                Op::Call(args@.len() as u8),
            ),
            Expr::SeqIndex { seq, index } => index.lowered(seq.lowered(g)).push(Op::SeqGet),
            Expr::SeqLen { seq } => seq.lowered(g).push(Op::SeqLen),
            Expr::SeqToList { seq } => seq.lowered(g).push(Op::SeqToList),
            Expr::TupleCreate(items) => all_lowered(items@, g).push(
                Op::TupleCreate(items@.len() as u8),
            ),
            Expr::TupleFromList(e) => e.lowered(g).push(Op::TupleFromList),
            Expr::TupleWeakRef(e) => e.lowered(g).push(Op::TupleWeakRef),
            Expr::TupleWeakUpgrade(e) => e.lowered(g).push(Op::TupleWeakUpgrade),
            Expr::TableCreate(e) => e.lowered(g).push(Op::TableCreate),
            Expr::ListCreate(items) => all_lowered(items@, g).push(
                Op::ListCreate(items@.len() as u8),
            ),
            Expr::ListGetSlice { list, a, b } => b.lowered(a.lowered(list.lowered(g))).push(
                Op::ListGetSlice,
            ),
            Expr::ListPop(e) => e.lowered(g).push(Op::ListPop),
            Expr::BufferCreate(e) => e.lowered(g).push(Op::BufferCreate),
            Expr::BufferGetSlice { buffer, a, b } => b.lowered(a.lowered(buffer.lowered(g))).push(
                Op::BufferGetSlice,
            ),
        }
    }

    /// The variables that the expression reads, in the order in which they
    /// stand in it, each as often as it stands there.
    pub open spec fn vars(&self) -> Seq<Span<Var>>
        decreases self,
    {
        match self {
            Expr::LiteralValue(_) => Seq::empty(),
            Expr::Var(var) => seq![*var],
            Expr::ModuleRef => Seq::empty(),
            Expr::BinaryOp(b) => b.lhs.vars() + b.rhs.vars(),
            Expr::UnaryOp(u) => u.expr.vars(),
            Expr::Call { func, args } => func.vars() + all_vars(args@),
            Expr::SeqIndex { seq, index } => seq.vars() + index.vars(),
            Expr::SeqLen { seq } => seq.vars(),
            Expr::SeqToList { seq } => seq.vars(),
            Expr::TupleCreate(items) => all_vars(items@),
            Expr::TupleFromList(e) => e.vars(),
            Expr::TupleWeakRef(e) => e.vars(),
            Expr::TupleWeakUpgrade(e) => e.vars(),
            Expr::TableCreate(e) => e.vars(),
            Expr::ListCreate(items) => all_vars(items@),
            Expr::ListGetSlice { list, a, b } => list.vars() + a.vars() + b.vars(),
            Expr::ListPop(e) => e.vars(),
            Expr::BufferCreate(e) => e.vars(),
            Expr::BufferGetSlice { buffer, a, b } => buffer.vars() + a.vars() + b.vars(),
        }
    }

    /// Emits the instructions of the expression.
    pub fn compile(&self, g: &mut CodeGenerator)
        requires
            self.compilable(old(g)@.vars),
        ensures
            final(g)@ == self.lowered(old(g)@),
            final(g)@.grows_from(old(g)@),
            old(g)@.wf() ==> final(g)@.wf(),
        decreases self,
    {
        match self {
            Expr::LiteralValue(l) => g.push(Op::LiteralCreate(l.inner)),
            Expr::Var(var) => g.push_var_load(var.inner),
            Expr::ModuleRef => g.push(Op::StackLoad(0)),
            Expr::BinaryOp(b) => b.compile(g),
            Expr::UnaryOp(u) => u.compile(g),
            Expr::Call { func, args } => {
                func.compile(g);
                compile_all(args, g);
                g.push(Op::Call(count_of(args)));
            },
            Expr::SeqIndex { seq, index } => {
                seq.compile(g);
                index.compile(g);
                g.push(Op::SeqGet);
            },
            Expr::SeqLen { seq } => {
                seq.compile(g);
                g.push(Op::SeqLen);
            },
            Expr::SeqToList { seq } => {
                seq.compile(g);
                g.push(Op::SeqToList);
            },
            Expr::TupleCreate(items) => {
                compile_all(items, g);
                g.push(Op::TupleCreate(count_of(items)));
            },
            Expr::TupleFromList(e) => {
                e.compile(g);
                g.push(Op::TupleFromList);
            },
            Expr::TupleWeakRef(e) => {
                e.compile(g);
                g.push(Op::TupleWeakRef);
            },
            Expr::TupleWeakUpgrade(e) => {
                e.compile(g);
                g.push(Op::TupleWeakUpgrade);
            },
            Expr::TableCreate(e) => {
                e.compile(g);
                g.push(Op::TableCreate);
            },
            Expr::ListCreate(items) => {
                compile_all(items, g);
                g.push(Op::ListCreate(count_of(items)));
            },
            Expr::ListGetSlice { list, a, b } => {
                list.compile(g);
                a.compile(g);
                b.compile(g);
                g.push(Op::ListGetSlice);
            },
            Expr::ListPop(e) => {
                e.compile(g);
                g.push(Op::ListPop);
            },
            Expr::BufferCreate(e) => {
                e.compile(g);
                g.push(Op::BufferCreate);
            },
            Expr::BufferGetSlice { buffer, a, b } => {
                buffer.compile(g);
                a.compile(g);
                b.compile(g);
                g.push(Op::BufferGetSlice);
            },
        }
    }

    /// Whether the expression can be lowered by this generator.
    pub fn is_compilable(&self, g: &CodeGenerator) -> (r: bool)
        ensures
            r == self.compilable(g@.vars),
        decreases self,
    {
        match self {
            Expr::LiteralValue(_) => true,
            Expr::Var(var) => g.is_bound(var.inner),
            Expr::ModuleRef => true,
            Expr::BinaryOp(b) => b.lhs.is_compilable(g) && b.rhs.is_compilable(g),
            Expr::UnaryOp(u) => u.expr.is_compilable(g),
            Expr::Call { func, args } => func.is_compilable(g) && args.len() <= 255
                && are_compilable(args, g),
            Expr::SeqIndex { seq, index } => seq.is_compilable(g) && index.is_compilable(g),
            Expr::SeqLen { seq } => seq.is_compilable(g),
            Expr::SeqToList { seq } => seq.is_compilable(g),
            Expr::TupleCreate(items) => items.len() <= 255 && are_compilable(items, g),
            Expr::TupleFromList(e) => e.is_compilable(g),
            Expr::TupleWeakRef(e) => e.is_compilable(g),
            Expr::TupleWeakUpgrade(e) => e.is_compilable(g),
            Expr::TableCreate(e) => e.is_compilable(g),
            Expr::ListCreate(items) => items.len() <= 255 && are_compilable(items, g),
            Expr::ListGetSlice { list, a, b } => list.is_compilable(g) && a.is_compilable(g)
                && b.is_compilable(g),
            Expr::ListPop(e) => e.is_compilable(g),
            Expr::BufferCreate(e) => e.is_compilable(g),
            Expr::BufferGetSlice { buffer, a, b } => buffer.is_compilable(g) && a.is_compilable(g)
                && b.is_compilable(g),
        }
    }

    /// The variables that the expression reads.
    pub fn find_vars(&self) -> (vars: Vec<Span<Var>>)
        ensures
            vars@ == self.vars(),
    {
        let mut vars = Vec::new();
        self.acc_vars(&mut vars);
        vars
    }

    fn acc_vars(&self, vars: &mut Vec<Span<Var>>)
        ensures
            final(vars)@ == old(vars)@ + self.vars(),
        decreases self,
    {
        match self {
            Expr::LiteralValue(_) => {},
            Expr::Var(var) => vars.push(*var),
            Expr::ModuleRef => {},
            Expr::BinaryOp(b) => {
                b.lhs.acc_vars(vars);
                b.rhs.acc_vars(vars);
            },
            Expr::UnaryOp(u) => u.expr.acc_vars(vars),
            Expr::Call { func, args } => {
                func.acc_vars(vars);
                acc_all_vars(args, vars);
            },
            Expr::SeqIndex { seq, index } => {
                seq.acc_vars(vars);
                index.acc_vars(vars);
            },
            Expr::SeqLen { seq } => seq.acc_vars(vars),
            Expr::SeqToList { seq } => seq.acc_vars(vars),
            Expr::TupleCreate(exprs) => acc_all_vars(exprs, vars),
            Expr::TupleFromList(e) => e.acc_vars(vars),
            Expr::TupleWeakRef(e) => e.acc_vars(vars),
            Expr::TupleWeakUpgrade(e) => e.acc_vars(vars),
            Expr::TableCreate(e) => e.acc_vars(vars),
            Expr::ListCreate(exprs) => acc_all_vars(exprs, vars),
            Expr::ListGetSlice { list, a, b } => {
                list.acc_vars(vars);
                a.acc_vars(vars);
                b.acc_vars(vars);
            },
            Expr::ListPop(e) => e.acc_vars(vars),
            Expr::BufferCreate(e) => e.acc_vars(vars),
            Expr::BufferGetSlice { buffer, a, b } => {
                buffer.acc_vars(vars);
                a.acc_vars(vars);
                b.acc_vars(vars);
            },
        }
        assert(final(vars)@ =~= old(vars)@ + self.vars());
    }
}

/// Whether each of the expressions can be lowered.
pub open spec fn all_compilable(es: Seq<Expr>, vars: Map<Var, u8>) -> bool
    decreases es,
{
    forall|i: int| 0 <= i < es.len() ==> (#[trigger] es[i]).compilable(vars)
}

/// The state after the expressions were lowered one after the other.
pub open spec fn all_lowered(es: Seq<Expr>, g: GenView) -> GenView
    decreases es,
{
    if es.len() == 0 {
        g
    } else {
        es.last().lowered(all_lowered(es.drop_last(), g))
    }
}

/// The variables of the expressions, one expression after the other.
pub open spec fn all_vars(es: Seq<Expr>) -> Seq<Span<Var>>
    decreases es,
{
    if es.len() == 0 {
        Seq::empty()
    } else {
        all_vars(es.drop_last()) + es.last().vars()
    }
}

fn count_of(es: &Vec<Expr>) -> (n: u8)
    requires
        es@.len() <= 255,
    ensures
        n == es@.len(),
{
    es.len() as u8
}

fn are_compilable(es: &Vec<Expr>, g: &CodeGenerator) -> (r: bool)
    ensures
        r == all_compilable(es@, g@.vars),
    decreases es,
{
    let mut i: usize = 0;
    while i < es.len()
        invariant
            i <= es.len(),
            forall|k: int| 0 <= k < i ==> (#[trigger] es@[k]).compilable(g@.vars),
        decreases es.len() - i,
    {
        if !es[i].is_compilable(g) {
            return false;
        }
        i += 1;
    }
    true
}

fn compile_all(es: &Vec<Expr>, g: &mut CodeGenerator)
    requires
        all_compilable(es@, old(g)@.vars),
    ensures
        final(g)@ == all_lowered(es@, old(g)@),
        final(g)@.grows_from(old(g)@),
        old(g)@.wf() ==> final(g)@.wf(),
    decreases es,
{
    let mut i: usize = 0;
    assert(es@.subrange(0, 0) =~= Seq::empty());
    while i < es.len()
        invariant
            i <= es.len(),
            all_compilable(es@, old(g)@.vars),
            g@ == all_lowered(es@.subrange(0, i as int), old(g)@),
            g@.grows_from(old(g)@),
            old(g)@.wf() ==> g@.wf(),
        decreases es.len() - i,
    {
        let ghost before = g@;
        es[i].compile(g);
        proof {
            let s = es@.subrange(0, i + 1);
            assert(s.drop_last() =~= es@.subrange(0, i as int));
            assert(s.last() == es@[i as int]);
            lemma_grows_transitive(old(g)@, before, g@);
        }
        i += 1;
    }
    assert(es@.subrange(0, i as int) =~= es@);
}

fn acc_all_vars(es: &Vec<Expr>, vars: &mut Vec<Span<Var>>)
    ensures
        final(vars)@ == old(vars)@ + all_vars(es@),
    decreases es,
{
    let mut i: usize = 0;
    assert(es@.subrange(0, 0) =~= Seq::empty());
    assert(vars@ =~= old(vars)@ + all_vars(es@.subrange(0, 0)));
    while i < es.len()
        invariant
            i <= es.len(),
            vars@ == old(vars)@ + all_vars(es@.subrange(0, i as int)),
        decreases es.len() - i,
    {
        es[i].acc_vars(vars);
        proof {
            let s = es@.subrange(0, i + 1);
            assert(s.drop_last() =~= es@.subrange(0, i as int));
            assert(s.last() == es@[i as int]);
            assert(vars@ =~= old(vars)@ + all_vars(s));
        }
        i += 1;
    }
    assert(es@.subrange(0, i as int) =~= es@);
}

/// Growing twice is growing.
pub proof fn lemma_grows_transitive(a: GenView, b: GenView, c: GenView)
    requires
        b.grows_from(a),
        c.grows_from(b),
    ensures
        c.grows_from(a),
{
}

} // verus!
