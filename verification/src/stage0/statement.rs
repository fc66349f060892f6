use vstd::prelude::*;
use crate::bytecode::Op;
use super::codegen::{CodeGenerator, GenView, Label, Var};
use super::expr::Expr;

verus! {

/// A statement. Lowering one leaves the stack as it found it.
pub enum Statement {
    BindVar(Var),
    DropVar(Var),
    InitVar(Var),
    Loop(Loop),
    Break { label: Option<usize> },
    Continue { label: Option<usize> },
    Expr(Expr),
    Return(Expr),
    IfElse(IfElse),
    Assign { place: Box<Expr>, value: Box<Expr> },
    SeqAppend { seq: Box<Expr>, src: Box<Expr> },
    SeqResize { seq: Box<Expr>, len: Box<Expr> },
    ListPush { list: Box<Expr>, value: Box<Expr> },
    BufferSetSlice {
        buffer: Box<Expr>,
        src: Box<Expr>,
        src_offset: Box<Expr>,
        offset: Box<Expr>,
        len: Box<Expr>,
    },
}

/// A loop, with a condition that is tested before each round where there is
/// one, and a name under which `Break` and `Continue` can find it.
pub struct Loop {
    pub condition: Option<Expr>,
    pub label: Option<usize>,
    pub body: Vec<Statement>,
}

pub struct IfElse {
    pub if_: If,
    pub else_if: Vec<If>,
    pub else_: Vec<Statement>,
}

pub struct If {
    pub condition: Expr,
    pub body: Vec<Statement>,
}

/// A statement as contracts see it: blocks are sequences.
pub enum StmtV {
    BindVar(Var),
    DropVar(Var),
    InitVar(Var),
    Loop { condition: Option<Expr>, label: Option<usize>, body: Seq<StmtV> },
    Break { label: Option<usize> },
    Continue { label: Option<usize> },
    Expr(Expr),
    Return(Expr),
    IfElse { if_: IfV, else_if: Seq<IfV>, else_: Seq<StmtV> },
    Assign { place: Expr, value: Expr },
    SeqAppend { seq: Expr, src: Expr },
    SeqResize { seq: Expr, len: Expr },
    ListPush { list: Expr, value: Expr },
    BufferSetSlice { buffer: Expr, src: Expr, src_offset: Expr, offset: Expr, len: Expr },
}

/// A branch as contracts see it.
pub struct IfV {
    pub condition: Expr,
    pub body: Seq<StmtV>,
}

impl View for Statement {
    type V = StmtV;

    open spec fn view(&self) -> StmtV
        decreases self,
    {
        match self {
            Statement::BindVar(v) => StmtV::BindVar(*v),
            Statement::DropVar(v) => StmtV::DropVar(*v),
            Statement::InitVar(v) => StmtV::InitVar(*v),
            Statement::Loop(l) => StmtV::Loop {
                condition: l.condition,
                label: l.label,
                body: block_view(l.body@),
            },
            Statement::Break { label } => StmtV::Break { label: *label },
            Statement::Continue { label } => StmtV::Continue { label: *label },
            Statement::Expr(e) => StmtV::Expr(*e),
            Statement::Return(e) => StmtV::Return(*e),
            Statement::IfElse(s) => StmtV::IfElse {
                if_: IfV { condition: s.if_.condition, body: block_view(s.if_.body@) },
                else_if: ifs_view(s.else_if@),
                else_: block_view(s.else_@),
            },
            Statement::Assign { place, value } => StmtV::Assign { place: **place, value: **value },
            Statement::SeqAppend { seq, src } => StmtV::SeqAppend { seq: **seq, src: **src },
            Statement::SeqResize { seq, len } => StmtV::SeqResize { seq: **seq, len: **len },
            Statement::ListPush { list, value } => StmtV::ListPush { list: **list, value: **value },
            Statement::BufferSetSlice { buffer, src, src_offset, offset, len } => {
                StmtV::BufferSetSlice {
                    buffer: **buffer,
                    src: **src,
                    src_offset: **src_offset,
                    offset: **offset,
                    len: **len,
                }
            },
        }
    }
}

/// A block as contracts see it.
pub open spec fn block_view(b: Seq<Statement>) -> Seq<StmtV>
    decreases b,
{
    Seq::new(
        b.len(),
        |i: int|
            if 0 <= i < b.len() {
                b[i]@
            } else {
                arbitrary()
            },
    )
}

/// The branches of an `IfElse` as contracts see them.
pub open spec fn ifs_view(b: Seq<If>) -> Seq<IfV>
    decreases b,
{
    Seq::new(
        b.len(),
        |i: int|
            if 0 <= i < b.len() {
                IfV { condition: b[i].condition, body: block_view(b[i].body@) }
            } else {
                arbitrary()
            },
    )
}

impl View for If {
    type V = IfV;

    open spec fn view(&self) -> IfV {
        IfV { condition: self.condition, body: block_view(self.body@) }
    }
}

impl GenView {
    /// Whether this state comes from `before` by emitting statements: the
    /// loops are as they were, instructions and labels were added, every new
    /// label is placed, and of the labels that were there only the lists of
    /// waiting jumps have grown.
    pub open spec fn continues(self, before: GenView) -> bool {
        &&& self.extends(before)
        &&& forall|i: int|
            before.labels.len() <= i < self.labels.len() ==> (#[trigger] self.labels[i]).target
                is Some
    }

    /// As `continues`, but new labels may still wait for their place.
    pub open spec fn extends(self, before: GenView) -> bool {
        &&& self.loops == before.loops
        &&& self.loop_stack == before.loop_stack
        &&& before.ops.len() <= self.ops.len()
        &&& forall|i: int| 0 <= i < before.ops.len() ==> self.ops[i] == before.ops[i]
        &&& before.labels.len() <= self.labels.len()
        &&& forall|i: int|
            0 <= i < before.labels.len() ==> (#[trigger] self.labels[i]).target
                == before.labels[i].target
    }
}

impl StmtV {
    /// Whether the statement can be lowered from state `g`.
    ///
    /// A variable is bound only once at a time and only while a slot is left;
    /// it is dropped, stored to and read only while it is bound. `Break` and
    /// `Continue` need their loop. A loop's name is not in use. The place of
    /// an assignment is a variable or an indexed sequence.
    pub open spec fn ok(self, g: GenView) -> bool
        decreases self,
    {
        match self {
            StmtV::BindVar(v) => g.can_bind_var(v),
            StmtV::DropVar(v) => g.vars.contains_key(v),
            StmtV::InitVar(v) => g.vars.contains_key(v),
            StmtV::Loop { condition, label, body } => {
                &&& g.can_loop_enter(label)
                &&& condition matches Some(c) ==> c.compilable(g.vars)
                &&& block_ok(body, loop_head(condition, label, g))
            },
            StmtV::Break { label } => g.has_loop(label) && g.loop_labels(label).1 < g.labels.len(),
            StmtV::Continue { label } => g.has_loop(label) && g.loop_labels(label).0
                < g.labels.len(),
            StmtV::Expr(e) => e.compilable(g.vars),
            StmtV::Return(e) => e.compilable(g.vars),
            StmtV::IfElse { if_, else_if, else_ } => {
                let g1 = g.create_label();
                let g2 = if_.lowered(g.next_label(), g1);
                let g3 = ifs_lowered(else_if, g.next_label(), g2);
                &&& if_.ok(g.next_label(), g1)
                &&& ifs_ok(else_if, g.next_label(), g2)
                &&& block_ok(else_, g3)
            },
            StmtV::Assign { place, value } => match place {
                Expr::Var(var) => value.compilable(g.vars) && g.vars.contains_key(var.inner),
                Expr::SeqIndex { seq, index } => seq.compilable(g.vars) && index.compilable(g.vars)
                    && value.compilable(g.vars),
                _ => false,
            },
            StmtV::SeqAppend { seq, src } => seq.compilable(g.vars) && src.compilable(g.vars),
            StmtV::SeqResize { seq, len } => seq.compilable(g.vars) && len.compilable(g.vars),
            StmtV::ListPush { list, value } => list.compilable(g.vars) && value.compilable(g.vars),
            StmtV::BufferSetSlice { buffer, src, src_offset, offset, len } => {
                &&& buffer.compilable(g.vars)
                &&& src.compilable(g.vars)
                &&& src_offset.compilable(g.vars)
                &&& offset.compilable(g.vars)
                &&& len.compilable(g.vars)
            },
        }
    }

    /// The state of the generator after the statement was lowered from `g`.
    ///
    /// * A loop: its `continue` label; the condition and a jump to the
    ///   `break` label if it is zero; the body; a jump back to the `continue`
    ///   label; the `break` label.
    /// * `Break` and `Continue`: a jump to the label of their loop.
    /// * An expression as a statement: the expression, then `StackPop`.
    /// * `IfElse`: each branch in turn, then the `else` block, then the label
    ///   to which every branch jumps when it is done.
    /// * An assignment to a variable: the value, then the store. To an
    ///   indexed sequence: the sequence, the index, the value, then `SeqSet`.
    pub open spec fn lowered(self, g: GenView) -> GenView
        decreases self,
    {
        match self {
            StmtV::BindVar(v) => g.bind_var(v),
            StmtV::DropVar(v) => g.drop_var(v),
            StmtV::InitVar(v) => g.push_var_store(v),
            StmtV::Loop { condition, label, body } => {
                let label_continue = g.next_label();
                let label_break = (g.labels.len() + 1) as usize;
                block_lowered(body, loop_head(condition, label, g)).push_jump(
                    label_continue,
                    Op::Jump(0),
                ).label_here(label_break).loop_exit(label)
            },
            StmtV::Break { label } => g.push_jump(g.loop_labels(label).1, Op::Jump(0)),
            StmtV::Continue { label } => g.push_jump(g.loop_labels(label).0, Op::Jump(0)),
            StmtV::Expr(e) => e.lowered(g).push(Op::StackPop),
            StmtV::Return(e) => e.lowered(g).push(Op::Return),
            StmtV::IfElse { if_, else_if, else_ } => {
                let label_endif = g.next_label();
                let g = if_.lowered(label_endif, g.create_label());
                let g = ifs_lowered(else_if, label_endif, g);
                block_lowered(else_, g).label_here(label_endif)
            },
            StmtV::Assign { place, value } => match place {
                Expr::Var(var) => value.lowered(g).push_var_store(var.inner),
                Expr::SeqIndex { seq, index } => value.lowered(
                    index.lowered(seq.lowered(g)),
                ).push(Op::SeqSet),
                _ => g,
            },
            StmtV::SeqAppend { seq, src } => src.lowered(seq.lowered(g)).push(Op::SeqAppend),
            StmtV::SeqResize { seq, len } => len.lowered(seq.lowered(g)).push(Op::SeqResize),
            StmtV::ListPush { list, value } => value.lowered(list.lowered(g)).push(Op::ListPush),
            StmtV::BufferSetSlice { buffer, src, src_offset, offset, len } => len.lowered(
                offset.lowered(src_offset.lowered(src.lowered(buffer.lowered(g)))),
            ).push(Op::BufferSetSlice),
        }
    }
}

/// The state at the start of a loop's body: the loop is entered, its
/// `continue` label is placed, and the condition with its jump to the `break`
/// label is emitted.
pub open spec fn loop_head(condition: Option<Expr>, label: Option<usize>, g: GenView) -> GenView {
    let label_continue = g.next_label();
    let label_break = (g.labels.len() + 1) as usize;
    let g = g.loop_enter(label).label_here(label_continue);
    match condition {
        Some(c) => c.lowered(g).push_jump(label_break, Op::JumpZero(0)),
        None => g,
    }
}

/// Whether the statements can be lowered one after the other.
pub open spec fn block_ok(b: Seq<StmtV>, g: GenView) -> bool
    decreases b,
{
    if b.len() == 0 {
        true
    } else {
        b.first().ok(g) && block_ok(b.drop_first(), b.first().lowered(g))
    }
}

/// The state after the statements were lowered one after the other.
pub open spec fn block_lowered(b: Seq<StmtV>, g: GenView) -> GenView
    decreases b,
{
    if b.len() == 0 {
        g
    } else {
        block_lowered(b.drop_first(), b.first().lowered(g))
    }
}

impl IfV {
    /// Whether the branch can be lowered from state `g`, where `label_endif`
    /// is the label behind the whole `IfElse`.
    pub open spec fn ok(self, label_endif: Label, g: GenView) -> bool
        decreases self,
    {
        &&& label_endif < g.labels.len()
        &&& self.condition.compilable(g.vars)
        &&& block_ok(self.body, self.head(g))
    }

    /// The state at the start of the branch's body: a label for the next
    /// branch is made, and the condition is emitted with a jump to that label
    /// if it is zero.
    pub open spec fn head(self, g: GenView) -> GenView {
        self.condition.lowered(g.create_label()).push_jump(g.next_label(), Op::JumpZero(0))
    }

    /// The state after the branch was lowered: its head, its body, a jump to
    /// `label_endif`, then the label for the next branch.
    pub open spec fn lowered(self, label_endif: Label, g: GenView) -> GenView
        decreases self,
    {
        block_lowered(self.body, self.head(g)).push_jump(label_endif, Op::Jump(0)).label_here(
            g.next_label(),
        )
    }
}

/// Whether the branches can be lowered one after the other.
pub open spec fn ifs_ok(b: Seq<IfV>, label_endif: Label, g: GenView) -> bool
    decreases b,
{
    if b.len() == 0 {
        true
    } else {
        b.first().ok(label_endif, g) && ifs_ok(
            b.drop_first(),
            label_endif,
            b.first().lowered(label_endif, g),
        )
    }
}

/// The state after the branches were lowered one after the other.
pub open spec fn ifs_lowered(b: Seq<IfV>, label_endif: Label, g: GenView) -> GenView
    decreases b,
{
    if b.len() == 0 {
        g
    } else {
        ifs_lowered(b.drop_first(), label_endif, b.first().lowered(label_endif, g))
    }
}

impl Statement {
    /// Emits the instructions of the statement.
    pub fn compile(&self, g: &mut CodeGenerator)
        requires
            self@.ok(old(g)@),
        ensures
            final(g)@ == self@.lowered(old(g)@),
            final(g)@.continues(old(g)@),
            old(g)@.wf() ==> final(g)@.wf(),
    {
        let done = self.try_compile(g);
    }

    /// Emits the instructions of the statement if it can be lowered, and says
    /// whether it could. Where it cannot, the generator may be left with a
    /// part of them.
    pub fn try_compile(&self, g: &mut CodeGenerator) -> (done: bool)
        ensures
            done == self@.ok(old(g)@),
            done ==> final(g)@ == self@.lowered(old(g)@),
            done ==> final(g)@.continues(old(g)@),
            done && old(g)@.wf() ==> final(g)@.wf(),
        decreases self,
    {
        match self {
            Statement::BindVar(var) => {
                if !g.can_bind(*var) {
                    return false;
                }
                g.bind_var(*var);
            },
            Statement::DropVar(var) => {
                if !g.is_bound(*var) {
                    return false;
                }
                g.drop_var(*var);
            },
            Statement::InitVar(var) => {
                if !g.is_bound(*var) {
                    return false;
                }
                g.push_var_store(*var);
            },
            Statement::Loop(l) => {
                return l.try_compile(g);
            },
            Statement::Break { label } => {
                match g.find_loop(*label) {
                    Some(labels) => {
                        if labels.1 >= g.label_count() {
                            return false;
                        }
                        g.push_jump(labels.1, Op::Jump(0));
                    },
                    None => {
                        return false;
                    },
                }
            },
            Statement::Continue { label } => {
                match g.find_loop(*label) {
                    Some(labels) => {
                        if labels.0 >= g.label_count() {
                            return false;
                        }
                        g.push_jump(labels.0, Op::Jump(0));
                    },
                    None => {
                        return false;
                    },
                }
            },
            Statement::Expr(e) => {
                if !e.is_compilable(g) {
                    return false;
                }
                e.compile(g);
                g.push(Op::StackPop);
            },
            Statement::Return(e) => {
                if !e.is_compilable(g) {
                    return false;
                }
                e.compile(g);
                g.push(Op::Return);
            },
            Statement::IfElse(s) => {
                return s.try_compile(g);
            },
            Statement::Assign { place, value } => match &**place {
                Expr::Var(var) => {
                    if !(value.is_compilable(g) && g.is_bound(var.inner)) {
                        return false;
                    }
                    value.compile(g);
                    g.push_var_store(var.inner);
                },
                Expr::SeqIndex { seq, index } => {
                    if !(seq.is_compilable(g) && index.is_compilable(g) && value.is_compilable(g)) {
                        return false;
                    }
                    seq.compile(g);
                    index.compile(g);
                    value.compile(g);
                    g.push(Op::SeqSet);
                },
                _ => {
                    return false;
                },
            },
            Statement::SeqAppend { seq, src } => {
                if !(seq.is_compilable(g) && src.is_compilable(g)) {
                    return false;
                }
                seq.compile(g);
                src.compile(g);
                g.push(Op::SeqAppend);
            },
            Statement::SeqResize { seq, len } => {
                if !(seq.is_compilable(g) && len.is_compilable(g)) {
                    return false;
                }
                seq.compile(g);
                len.compile(g);
                g.push(Op::SeqResize);
            },
            Statement::ListPush { list, value } => {
                if !(list.is_compilable(g) && value.is_compilable(g)) {
                    return false;
                }
                list.compile(g);
                value.compile(g);
                g.push(Op::ListPush);
            },
            Statement::BufferSetSlice { buffer, src, src_offset, offset, len } => {
                if !(buffer.is_compilable(g) && src.is_compilable(g) && src_offset.is_compilable(g)
                    && offset.is_compilable(g) && len.is_compilable(g)) {
                    return false;
                }
                buffer.compile(g);
                src.compile(g);
                src_offset.compile(g);
                offset.compile(g);
                len.compile(g);
                g.push(Op::BufferSetSlice);
            },
        }
        true
    }
}

/// Emits the statements of a block one after the other.
pub fn compile_block(block: &Vec<Statement>, g: &mut CodeGenerator)
    requires
        block_ok(block_view(block@), old(g)@),
    ensures
        final(g)@ == block_lowered(block_view(block@), old(g)@),
        final(g)@.continues(old(g)@),
        old(g)@.wf() ==> final(g)@.wf(),
{
    let done = try_compile_block(block, g);
}

/// Emits the statements of a block one after the other, as far as they can be
/// lowered, and says whether all of them could.
pub fn try_compile_block(block: &Vec<Statement>, g: &mut CodeGenerator) -> (done: bool)
    ensures
        done == block_ok(block_view(block@), old(g)@),
        done ==> final(g)@ == block_lowered(block_view(block@), old(g)@),
        done ==> final(g)@.continues(old(g)@),
        done && old(g)@.wf() ==> final(g)@.wf(),
    decreases block,
{
    let ghost all = block_view(block@);
    let mut i: usize = 0;
    assert(all.subrange(0, all.len() as int) =~= all);
    while i < block.len()
        invariant
            i <= block.len(),
            all == block_view(block@),
            block_ok(all.subrange(i as int, all.len() as int), g@) == block_ok(all, old(g)@),
            block_lowered(all.subrange(i as int, all.len() as int), g@) == block_lowered(
                all,
                old(g)@,
            ),
            g@.continues(old(g)@),
            old(g)@.wf() ==> g@.wf(),
        decreases block.len() - i,
    {
        let ghost rest = all.subrange(i as int, all.len() as int);
        assert(rest.first() == block@[i as int]@);
        assert(rest.drop_first() =~= all.subrange(i + 1, all.len() as int));
        if !block[i].try_compile(g) {
            return false;
        }
        i += 1;
    }
    true
}

impl Loop {
    /// The loop as contracts see it.
    pub open spec fn as_statement(&self) -> StmtV {
        StmtV::Loop { condition: self.condition, label: self.label, body: block_view(self.body@) }
    }

    /// Emits the loop.
    pub fn compile(&self, g: &mut CodeGenerator)
        requires
            self.as_statement().ok(old(g)@),
        ensures
            final(g)@ == self.as_statement().lowered(old(g)@),
            final(g)@.continues(old(g)@),
            old(g)@.wf() ==> final(g)@.wf(),
    {
        let done = self.try_compile(g);
    }

    /// Emits the loop if it can be lowered, and says whether it could.
    pub fn try_compile(&self, g: &mut CodeGenerator) -> (done: bool)
        ensures
            done == self.as_statement().ok(old(g)@),
            done ==> final(g)@ == self.as_statement().lowered(old(g)@),
            done ==> final(g)@.continues(old(g)@),
            done && old(g)@.wf() ==> final(g)@.wf(),
        decreases self,
    {
        if !g.can_enter(self.label) {
            return false;
        }
        if let Some(condition) = &self.condition {
            if !condition.is_compilable(g) {
                return false;
            }
        }
        proof {
            g.lemma_bounded();
        }
        g.loop_enter(self.label);
        proof {
            g.lemma_bounded();
        }
        let label_continue = g.loop_get_continue(self.label);
        let label_break = g.loop_get_break(self.label);
        assert(label_continue == old(g)@.labels.len());
        assert(label_break == old(g)@.labels.len() + 1);
        g.label_here(label_continue);
        if let Some(condition) = &self.condition {
            condition.compile(g);
            g.push_jump(label_break, Op::JumpZero(0));
        }
        assert(g@ == loop_head(self.condition, self.label, old(g)@));
        if !try_compile_block(&self.body, g) {
            return false;
        }
        g.push_jump(label_continue, Op::Jump(0));
        g.label_here(label_break);
        g.loop_exit(self.label);
        assert(g@.loops =~= old(g)@.loops);
        assert(g@.loop_stack =~= old(g)@.loop_stack);
        true
    }
}

impl IfElse {
    /// The statement as contracts see it.
    pub open spec fn as_statement(&self) -> StmtV {
        StmtV::IfElse {
            if_: self.if_@,
            else_if: ifs_view(self.else_if@),
            else_: block_view(self.else_@),
        }
    }

    /// Emits the branches, the `else` block and the label behind them.
    pub fn compile(&self, g: &mut CodeGenerator)
        requires
            self.as_statement().ok(old(g)@),
        ensures
            final(g)@ == self.as_statement().lowered(old(g)@),
            final(g)@.continues(old(g)@),
            old(g)@.wf() ==> final(g)@.wf(),
    {
        let done = self.try_compile(g);
    }

    /// Emits the statement if it can be lowered, and says whether it could.
    pub fn try_compile(&self, g: &mut CodeGenerator) -> (done: bool)
        ensures
            done == self.as_statement().ok(old(g)@),
            done ==> final(g)@ == self.as_statement().lowered(old(g)@),
            done ==> final(g)@.continues(old(g)@),
            done && old(g)@.wf() ==> final(g)@.wf(),
        decreases self,
    {
        let label_endif = g.create_label();
        if !self.if_.try_compile(g, label_endif) {
            return false;
        }
        let ghost all = ifs_view(self.else_if@);
        let ghost start = g@;
        let mut i: usize = 0;
        assert(all.subrange(0, all.len() as int) =~= all);
        while i < self.else_if.len()
            invariant
                i <= self.else_if.len(),
                all == ifs_view(self.else_if@),
                ifs_ok(all.subrange(i as int, all.len() as int), label_endif, g@) == ifs_ok(
                    all,
                    label_endif,
                    start,
                ),
                ifs_lowered(all.subrange(i as int, all.len() as int), label_endif, g@)
                    == ifs_lowered(all, label_endif, start),
                g@.extends(old(g)@),
                start == self.if_@.lowered(label_endif, old(g)@.create_label()),
                label_endif == old(g)@.next_label(),
                label_endif == old(g)@.labels.len(),
                label_endif < g@.labels.len(),
                g@.labels[label_endif as int].target is None,
                forall|k: int|
                    label_endif < k < g@.labels.len() ==> (#[trigger] g@.labels[k]).target is Some,
                old(g)@.wf() ==> g@.wf(),
            decreases self.else_if.len() - i,
        {
            let ghost rest = all.subrange(i as int, all.len() as int);
            assert(rest.first() == self.else_if@[i as int]@);
            assert(rest.drop_first() =~= all.subrange(i + 1, all.len() as int));
            let ghost before = g@;
            if !self.else_if[i].try_compile(g, label_endif) {
                assert(!ifs_ok(rest, label_endif, before));
                return false;
            }
            i += 1;
        }
        if !try_compile_block(&self.else_, g) {
            return false;
        }
        g.label_here(label_endif);
        true
    }
}

impl If {
    /// Emits the branch: where the condition is zero, control goes on behind
    /// the branch; else through the body and then to `label_endif`.
    pub fn compile(&self, g: &mut CodeGenerator, label_endif: Label)
        requires
            self@.ok(label_endif, old(g)@),
        ensures
            final(g)@ == self@.lowered(label_endif, old(g)@),
            final(g)@.continues(old(g)@),
            old(g)@.wf() ==> final(g)@.wf(),
    {
        let done = self.try_compile(g, label_endif);
    }

    /// Emits the branch if it can be lowered, and says whether it could.
    pub fn try_compile(&self, g: &mut CodeGenerator, label_endif: Label) -> (done: bool)
        ensures
            done == self@.ok(label_endif, old(g)@),
            done ==> final(g)@ == self@.lowered(label_endif, old(g)@),
            done ==> final(g)@.continues(old(g)@),
            done && old(g)@.wf() ==> final(g)@.wf(),
        decreases self,
    {
        if label_endif >= g.label_count() || !self.condition.is_compilable(g) {
            return false;
        }
        let label_next = g.create_label();
        self.condition.compile(g);
        g.push_jump(label_next, Op::JumpZero(0));
        if !try_compile_block(&self.body, g) {
            return false;
        }
        g.push_jump(label_endif, Op::Jump(0));
        g.label_here(label_next);
        true
    }
}

} // verus!
