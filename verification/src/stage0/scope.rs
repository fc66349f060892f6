//! Block-scope analysis: where each variable is used last, there it is dropped.
//!
//! A block is walked from its last statement to its first, with one set of
//! variables already seen for the whole function. The first time a variable is
//! met on this walk is its last use. If the block binds the variable, a
//! `DropVar` goes right behind the statement of that use. If not, the use is
//! handed up: the enclosing block treats it as a use by the statement that
//! holds the inner block.

use vstd::prelude::*;
use std::collections::BTreeSet;
use super::codegen::Var;
use super::expr::{Expr, Span};
use super::statement::{block_view, ifs_view, If, IfElse, IfV, Loop, Statement, StmtV};

verus! {

/// The variables seen so far, and those met for the first time at the
/// statement at hand, in the order in which they were met.
pub struct Tally {
    pub seen: Set<Var>,
    pub deferred: Seq<Var>,
}

/// What the walk finds at one statement.
pub struct StmtScan {
    /// The statement, with its inner blocks analysed.
    pub stmt: StmtV,
    pub tally: Tally,
    /// The variable that the statement binds, if it binds one.
    pub binds: Set<Var>,
}

/// What the walk finds at one branch of an `IfElse`.
pub struct IfScan {
    pub branch: IfV,
    pub tally: Tally,
}

/// What the walk finds at the branches of an `IfElse`.
pub struct IfsScan {
    pub branches: Seq<IfV>,
    pub tally: Tally,
}

/// What the walk finds in one block.
pub struct BlockScan {
    /// The statements, with their inner blocks analysed.
    pub stmts: Seq<StmtV>,
    pub seen: Set<Var>,
    /// For each statement the variables that are used last there.
    pub deferred: Seq<Seq<Var>>,
    /// The variables that the block binds.
    pub bindings: Set<Var>,
}

/// The result of the analysis of one block.
pub struct Analysed {
    /// The block with its drops inserted.
    pub block: Seq<StmtV>,
    pub seen: Set<Var>,
    /// The variables that are used last in this block but bound outside it.
    pub outer: Seq<Var>,
}

impl Tally {
    /// A variable is met.
    pub open spec fn note_var(self, var: Var) -> Tally {
        if self.seen.contains(var) {
            self
        } else {
            Tally { seen: self.seen.insert(var), deferred: self.deferred.push(var) }
        }
    }

    /// Variables are met one after the other.
    pub open spec fn note_vars(self, vars: Seq<Span<Var>>) -> Tally
        decreases vars.len(),
    {
        if vars.len() == 0 {
            self
        } else {
            self.note_var(vars.first().inner).note_vars(vars.drop_first())
        }
    }

    /// The variables of an expression are met.
    pub open spec fn note_expr(self, e: Expr) -> Tally {
        self.note_vars(e.vars())
    }

    /// An inner block was analysed: what it hands up counts as met here.
    pub open spec fn after_child(self, a: Analysed) -> Tally {
        Tally { seen: a.seen, deferred: self.deferred + a.outer }
    }
}

impl StmtV {
    /// Whether no `DropVar` stands in the statement or in a block inside it.
    pub open spec fn no_drops(self) -> bool
        decreases self,
    {
        match self {
            StmtV::DropVar(_) => false,
            StmtV::Loop { condition, label, body } => block_no_drops(body),
            StmtV::IfElse { if_, else_if, else_ } => block_no_drops(if_.body) && ifs_no_drops(
                else_if,
            ) && block_no_drops(else_),
            _ => true,
        }
    }

    /// What the walk finds at this statement, coming with `t`.
    pub open spec fn scan(self, t: Tally) -> StmtScan
        decreases self, 0nat,
    {
        match self {
            StmtV::BindVar(v) => StmtScan { stmt: self, tally: t, binds: set![v] },
            StmtV::DropVar(_) => StmtScan { stmt: self, tally: t, binds: Set::empty() },
            StmtV::InitVar(v) => StmtScan { stmt: self, tally: t.note_var(v), binds: Set::empty() },
            StmtV::Loop { condition, label, body } => {
                let t = match condition {
                    Some(c) => t.note_expr(c),
                    None => t,
                };
                let a = analysed(body, t.seen);
                StmtScan {
                    stmt: StmtV::Loop { condition, label, body: a.block },
                    tally: t.after_child(a),
                    binds: Set::empty(),
                }
            },
            StmtV::Break { label } => StmtScan { stmt: self, tally: t, binds: Set::empty() },
            StmtV::Continue { label } => StmtScan { stmt: self, tally: t, binds: Set::empty() },
            StmtV::Expr(e) => StmtScan { stmt: self, tally: t.note_expr(e), binds: Set::empty() },
            StmtV::Return(e) => StmtScan { stmt: self, tally: t.note_expr(e), binds: Set::empty() },
            StmtV::IfElse { if_, else_if, else_ } => {
                let first = scan_if(if_, t);
                let others = scan_ifs(else_if, first.tally);
                let a = analysed(else_, others.tally.seen);
                StmtScan {
                    stmt: StmtV::IfElse {
                        if_: first.branch,
                        else_if: others.branches,
                        else_: a.block,
                    },
                    tally: others.tally.after_child(a),
                    binds: Set::empty(),
                }
            },
            StmtV::Assign { place, value } => StmtScan {
                stmt: self,
                tally: t.note_expr(place).note_expr(value),
                binds: Set::empty(),
            },
            StmtV::SeqAppend { seq, src } => StmtScan {
                stmt: self,
                tally: t.note_expr(seq).note_expr(src),
                binds: Set::empty(),
            },
            StmtV::SeqResize { seq, len } => StmtScan {
                stmt: self,
                tally: t.note_expr(seq).note_expr(len),
                binds: Set::empty(),
            },
            StmtV::ListPush { list, value } => StmtScan {
                stmt: self,
                tally: t.note_expr(list).note_expr(value),
                binds: Set::empty(),
            },
            StmtV::BufferSetSlice { buffer, src, src_offset, offset, len } => StmtScan {
                stmt: self,
                tally: t.note_expr(buffer).note_expr(src).note_expr(src_offset).note_expr(
                    offset,
                ).note_expr(len),
                binds: Set::empty(),
            },
        }
    }
}

/// Whether no `DropVar` stands in the block or in a block inside it.
pub open spec fn block_no_drops(b: Seq<StmtV>) -> bool
    decreases b,
{
    forall|i: int| 0 <= i < b.len() ==> (#[trigger] b[i]).no_drops()
}

/// Whether no `DropVar` stands in the branches.
pub open spec fn ifs_no_drops(b: Seq<IfV>) -> bool
    decreases b,
{
    forall|i: int| 0 <= i < b.len() ==> block_no_drops((#[trigger] b[i]).body)
}

/// What the walk finds at a branch: its condition is read, then its body is
/// analysed.
pub open spec fn scan_if(branch: IfV, t: Tally) -> IfScan
    decreases branch, 0nat,
{
    let t = t.note_expr(branch.condition);
    let a = analysed(branch.body, t.seen);
    IfScan { branch: IfV { condition: branch.condition, body: a.block }, tally: t.after_child(a) }
}

/// What the walk finds at the branches, the first branch first.
pub open spec fn scan_ifs(branches: Seq<IfV>, t: Tally) -> IfsScan
    decreases branches, 0nat,
{
    if branches.len() == 0 {
        IfsScan { branches: Seq::empty(), tally: t }
    } else {
        let first = scan_if(branches.first(), t);
        let rest = scan_ifs(branches.drop_first(), first.tally);
        IfsScan { branches: seq![first.branch] + rest.branches, tally: rest.tally }
    }
}

/// What the walk finds in a block. It starts at the last statement, and each
/// statement starts with nothing deferred.
pub open spec fn scan_block(b: Seq<StmtV>, seen: Set<Var>) -> BlockScan
    decreases b, 0nat,
{
    if b.len() == 0 {
        BlockScan { stmts: Seq::empty(), seen, deferred: Seq::empty(), bindings: Set::empty() }
    } else {
        let last = b.last().scan(Tally { seen, deferred: Seq::empty() });
        let init = scan_block(b.drop_last(), last.tally.seen);
        BlockScan {
            stmts: init.stmts.push(last.stmt),
            seen: init.seen,
            deferred: init.deferred.push(last.tally.deferred),
            bindings: init.bindings.union(last.binds),
        }
    }
}

/// The drops for those of `vars` that the block binds, in the order of `vars`.
pub open spec fn drops_for(vars: Seq<Var>, bindings: Set<Var>) -> Seq<StmtV>
    decreases vars.len(),
{
    if vars.len() == 0 {
        Seq::empty()
    } else if bindings.contains(vars.last()) {
        drops_for(vars.drop_last(), bindings).push(StmtV::DropVar(vars.last()))
    } else {
        drops_for(vars.drop_last(), bindings)
    }
}

/// Those of `vars` that the block does not bind, the last first.
pub open spec fn outer_for(vars: Seq<Var>, bindings: Set<Var>) -> Seq<Var>
    decreases vars.len(),
{
    if vars.len() == 0 {
        Seq::empty()
    } else if bindings.contains(vars.first()) {
        outer_for(vars.drop_first(), bindings)
    } else {
        outer_for(vars.drop_first(), bindings).push(vars.first())
    }
}

/// The block with its drops: behind each statement stand the drops of the
/// variables that are used last there and that the block binds.
pub open spec fn spliced(stmts: Seq<StmtV>, deferred: Seq<Seq<Var>>, bindings: Set<Var>) -> Seq<
    StmtV,
>
    decreases stmts.len(),
{
    if stmts.len() == 0 || deferred.len() == 0 {
        Seq::empty()
    } else {
        spliced(stmts.drop_last(), deferred.drop_last(), bindings).push(stmts.last()) + drops_for(
            deferred.last(),
            bindings,
        )
    }
}

/// The variables that the block hands up, statement by statement.
pub open spec fn outer_all(deferred: Seq<Seq<Var>>, bindings: Set<Var>) -> Seq<Var>
    decreases deferred.len(),
{
    if deferred.len() == 0 {
        Seq::empty()
    } else {
        outer_all(deferred.drop_last(), bindings) + outer_for(deferred.last(), bindings)
    }
}

/// The analysis of a block, coming with the variables in `seen`.
pub open spec fn analysed(b: Seq<StmtV>, seen: Set<Var>) -> Analysed
    decreases b, 1nat,
{
    let scan = scan_block(b, seen);
    Analysed {
        block: spliced(scan.stmts, scan.deferred, scan.bindings),
        seen: scan.seen,
        outer: outer_all(scan.deferred, scan.bindings),
    }
}

impl Statement {
    /// Whether no `DropVar` stands in the statement or in a block inside it.
    pub fn has_no_drops(&self) -> (r: bool)
        ensures
            r == self@.no_drops(),
        decreases self,
    {
        match self {
            Statement::DropVar(_) => false,
            Statement::Loop(l) => block_has_no_drops(&l.body),
            Statement::IfElse(s) => block_has_no_drops(&s.if_.body) && ifs_have_no_drops(
                &s.else_if,
            ) && block_has_no_drops(&s.else_),
            _ => true,
        }
    }
}

/// Whether no `DropVar` stands in the block or in a block inside it.
pub fn block_has_no_drops(block: &Vec<Statement>) -> (r: bool)
    ensures
        r == block_no_drops(block_view(block@)),
    decreases block,
{
    let mut i: usize = 0;
    while i < block.len()
        invariant
            i <= block.len(),
            forall|k: int| 0 <= k < i ==> (#[trigger] block_view(block@)[k]).no_drops(),
        decreases block.len() - i,
    {
        if !block[i].has_no_drops() {
            assert(!block_view(block@)[i as int].no_drops());
            return false;
        }
        i += 1;
    }
    true
}

/// Whether no `DropVar` stands in the branches.
pub fn ifs_have_no_drops(branches: &Vec<If>) -> (r: bool)
    ensures
        r == ifs_no_drops(ifs_view(branches@)),
    decreases branches,
{
    let mut i: usize = 0;
    while i < branches.len()
        invariant
            i <= branches.len(),
            forall|k: int| 0 <= k < i ==> block_no_drops((#[trigger] ifs_view(branches@)[k]).body),
        decreases branches.len() - i,
    {
        if !block_has_no_drops(&branches[i].body) {
            assert(!block_no_drops(ifs_view(branches@)[i as int].body));
            return false;
        }
        i += 1;
    }
    true
}

/// The items in the opposite order.
pub fn reversed<T>(v: Vec<T>) -> (r: Vec<T>)
    ensures
        r@ == v@.reverse(),
{
    let mut rest = v;
    let mut r: Vec<T> = Vec::new();
    while rest.len() > 0
        invariant
            rest@.len() + r@.len() == v@.len(),
            forall|k: int| 0 <= k < rest@.len() ==> rest@[k] == v@[k],
            forall|k: int| 0 <= k < r@.len() ==> r@[k] == v@[v@.len() - 1 - k],
        decreases rest.len(),
    {
        let last = rest.pop().unwrap();
        r.push(last);
    }
    assert(r@ =~= v@.reverse());
    r
}

/// The state of the walk through one block.
pub struct BlockScopeAnalysis {
    /// The variables that the block binds, as far as the walk has come.
    pub bindings: BTreeSet<Var>,
    /// The variables met for the first time at the statement at hand.
    pub deferred: Vec<Var>,
}

impl BlockScopeAnalysis {
    /// The tally of the statement at hand.
    pub open spec fn tally(&self, seen: Set<Var>) -> Tally {
        Tally { seen, deferred: self.deferred@ }
    }

    pub fn new() -> (b: BlockScopeAnalysis)
        ensures
            b.bindings@ == Set::<Var>::empty(),
            b.deferred@ == Seq::<Var>::empty(),
    {
        BlockScopeAnalysis { bindings: BTreeSet::new(), deferred: Vec::new() }
    }

    /// Meets a variable: if it was not seen before, this is its last use.
    pub fn process_var(&mut self, seen: &mut BTreeSet<Var>, var: Var)
        ensures
            final(self).tally(final(seen)@) == old(self).tally(old(seen)@).note_var(var),
            final(self).bindings@ == old(self).bindings@,
    {
        let first_time = seen.insert(var);
        if first_time {
            self.deferred.push(var);
        } else {
            assert(seen@ =~= old(seen)@);
        }
    }

    /// Meets the variables of an expression.
    pub fn process_expr(&mut self, seen: &mut BTreeSet<Var>, expr: &Expr)
        ensures
            final(self).tally(final(seen)@) == old(self).tally(old(seen)@).note_expr(*expr),
            final(self).bindings@ == old(self).bindings@,
    {
        let vars = expr.find_vars();
        let mut i: usize = 0;
        assert(vars@.subrange(0, vars@.len() as int) =~= vars@);
        while i < vars.len()
            invariant
                i <= vars.len(),
                self.tally(seen@).note_vars(vars@.subrange(i as int, vars@.len() as int)) == old(
                    self,
                ).tally(old(seen)@).note_vars(vars@),
                self.bindings@ == old(self).bindings@,
            decreases vars.len() - i,
        {
            let ghost rest = vars@.subrange(i as int, vars@.len() as int);
            assert(rest.first() == vars@[i as int]);
            assert(rest.drop_first() =~= vars@.subrange(i + 1, vars@.len() as int));
            self.process_var(seen, vars[i].inner);
            i += 1;
        }
    }

    /// Analyses an inner block. What it hands up counts as met here.
    pub fn process_child_block(&mut self, seen: &mut BTreeSet<Var>, block: Vec<Statement>) -> (r:
        Vec<Statement>)
        requires
            block_no_drops(block_view(block@)),
        ensures
            block_view(r@) == analysed(block_view(block@), old(seen)@).block,
            final(self).tally(final(seen)@) == old(self).tally(old(seen)@).after_child(
                analysed(block_view(block@), old(seen)@),
            ),
            final(self).bindings@ == old(self).bindings@,
        decreases block, 2nat,
    {
        let (r, mut outer) = process_block(seen, block);
        self.deferred.append(&mut outer);
        r
    }

    /// Meets the condition of a branch, then analyses its body.
    pub fn process_if(&mut self, seen: &mut BTreeSet<Var>, if_: If) -> (r: If)
        requires
            block_no_drops(if_@.body),
        ensures
            r@ == scan_if(if_@, old(self).tally(old(seen)@)).branch,
            final(self).tally(final(seen)@) == scan_if(if_@, old(self).tally(old(seen)@)).tally,
            final(self).bindings@ == old(self).bindings@,
        decreases if_, 3nat,
    {
        let If { condition, body } = if_;
        self.process_expr(seen, &condition);
        let body = self.process_child_block(seen, body);
        If { condition, body }
    }

    /// Walks over one statement.
    #[verifier::loop_isolation(false)]
    pub fn process_statement(&mut self, seen: &mut BTreeSet<Var>, statement: Statement) -> (r:
        Statement)
        requires
            statement@.no_drops(),
        ensures
            r@ == statement@.scan(old(self).tally(old(seen)@)).stmt,
            final(self).tally(final(seen)@) == statement@.scan(old(self).tally(old(seen)@)).tally,
            final(self).bindings@ == old(self).bindings@.union(
                statement@.scan(old(self).tally(old(seen)@)).binds,
            ),
        decreases statement, 0nat,
    {
        let ghost before = self.bindings@;
        let r = match statement {
            Statement::BindVar(i) => {
                self.bindings.insert(i);
                Statement::BindVar(i)
            },
            Statement::DropVar(i) => Statement::DropVar(i),
            Statement::InitVar(i) => {
                self.process_var(seen, i);
                Statement::InitVar(i)
            },
            Statement::Loop(l) => {
                let Loop { condition, label, body } = l;
                if let Some(c) = &condition {
                    self.process_expr(seen, c);
                }
                let body = self.process_child_block(seen, body);
                Statement::Loop(Loop { condition, label, body })
            },
            Statement::Break { label } => Statement::Break { label },
            Statement::Continue { label } => Statement::Continue { label },
            Statement::Expr(expr) => {
                self.process_expr(seen, &expr);
                Statement::Expr(expr)
            },
            Statement::Return(expr) => {
                self.process_expr(seen, &expr);
                Statement::Return(expr)
            },
            Statement::IfElse(s) => {
                let IfElse { if_, else_if, else_ } = s;
                let ghost all = ifs_view(else_if@);
                let if_ = self.process_if(seen, if_);
                let ghost start = self.tally(seen@);
                // The branches are walked first to last. They are taken from
                // the end of the vector, so the vector is turned round first.
                let mut rev = reversed(else_if);
                let mut done: Vec<If> = Vec::new();
                assert(all.subrange(0, all.len() as int) =~= all);
                while rev.len() > 0
                    invariant
                        all == ifs_view(else_if@),
                        ifs_no_drops(all),
                        rev@.len() + done@.len() == else_if@.len(),
                        forall|k: int|
                            0 <= k < rev@.len() ==> rev@[k] == else_if@[else_if@.len() - 1 - k],
                        scan_ifs(all, start) == (IfsScan {
                            branches: ifs_view(done@) + scan_ifs(
                                all.subrange(done@.len() as int, all.len() as int),
                                self.tally(seen@),
                            ).branches,
                            tally: scan_ifs(
                                all.subrange(done@.len() as int, all.len() as int),
                                self.tally(seen@),
                            ).tally,
                        }),
                        self.bindings@ == before,
                    decreases rev.len(),
                {
                    let ghost n = done@.len() as int;
                    let ghost tail = all.subrange(n, all.len() as int);
                    let ghost t = self.tally(seen@);
                    let branch = rev.pop().unwrap();
                    assert(branch == else_if@[n]);
                    assert(tail.first() == branch@);
                    assert(tail.drop_first() =~= all.subrange(n + 1, all.len() as int));
                    assert(block_no_drops(all[n].body));
                    assert(decreases_to!(else_if => else_if[n]));
                    let branch = self.process_if(seen, branch);
                    let ghost done_before = done@;
                    done.push(branch);
                    proof {
                        let first = scan_if(tail.first(), t);
                        let rest_scan = scan_ifs(tail.drop_first(), first.tally);
                        assert(tail.len() > 0);
                        assert(scan_ifs(tail, t).branches == seq![first.branch]
                            + rest_scan.branches);
                        assert(scan_ifs(tail, t).tally == rest_scan.tally);
                        assert(self.tally(seen@) == first.tally);
                        assert(done@.len() == n + 1);
                        assert(ifs_view(done@) =~= ifs_view(done_before).push(first.branch));
                        assert(ifs_view(done_before) + (seq![first.branch] + rest_scan.branches)
                            =~= ifs_view(done@) + rest_scan.branches);
                        assert(scan_ifs(all.subrange(n + 1, all.len() as int), self.tally(seen@))
                            == rest_scan);
                    }
                }
                assert(all.subrange(all.len() as int, all.len() as int) =~= Seq::<IfV>::empty());
                assert(ifs_view(done@) + Seq::<IfV>::empty() =~= ifs_view(done@));
                let else_ = self.process_child_block(seen, else_);
                Statement::IfElse(IfElse { if_, else_if: done, else_ })
            },
            Statement::Assign { place, value } => {
                self.process_expr(seen, &place);
                self.process_expr(seen, &value);
                Statement::Assign { place, value }
            },
            Statement::SeqAppend { seq, src } => {
                self.process_expr(seen, &seq);
                self.process_expr(seen, &src);
                Statement::SeqAppend { seq, src }
            },
            Statement::SeqResize { seq, len } => {
                self.process_expr(seen, &seq);
                self.process_expr(seen, &len);
                Statement::SeqResize { seq, len }
            },
            Statement::ListPush { list, value } => {
                self.process_expr(seen, &list);
                self.process_expr(seen, &value);
                Statement::ListPush { list, value }
            },
            Statement::BufferSetSlice { buffer, src, src_offset, offset, len } => {
                self.process_expr(seen, &buffer);
                self.process_expr(seen, &src);
                self.process_expr(seen, &src_offset);
                self.process_expr(seen, &offset);
                self.process_expr(seen, &len);
                Statement::BufferSetSlice { buffer, src, src_offset, offset, len }
            },
        };
        assert(self.bindings@ =~= before.union(
            statement@.scan(old(self).tally(old(seen)@)).binds,
        ));
        r
    }
}

/// Analyses one block: walks it from its last statement to its first, then
/// puts each drop behind the statement of the last use. Returns the block
/// with its drops, and the variables whose last use is here but which the
/// block does not bind.
#[verifier::rlimit(50)]
pub fn process_block(seen: &mut BTreeSet<Var>, block: Vec<Statement>) -> (r: (
    Vec<Statement>,
    Vec<Var>,
))
    requires
        block_no_drops(block_view(block@)),
    ensures
        block_view(r.0@) == analysed(block_view(block@), old(seen)@).block,
        final(seen)@ == analysed(block_view(block@), old(seen)@).seen,
        r.1@ == analysed(block_view(block@), old(seen)@).outer,
    decreases block, 1nat,
{
    let ghost all = block_view(block@);
    let ghost full = scan_block(all, seen@);
    let ghost len = block@.len() as int;
    let mut analysis = BlockScopeAnalysis::new();
    let mut rest = block;
    let mut rev: Vec<Statement> = Vec::new();
    let mut deferred: Vec<Vec<Var>> = Vec::new();
    let ghost mut tail_stmts: Seq<StmtV> = Seq::empty();
    let ghost mut tail_deferred: Seq<Seq<Var>> = Seq::empty();
    assert(all.subrange(0, len) =~= all);
    assert(full.stmts =~= full.stmts + tail_stmts);
    assert(full.deferred =~= full.deferred + tail_deferred);
    assert(full.bindings =~= full.bindings.union(analysis.bindings@));
    while rest.len() > 0
        invariant
            all == block_view(block@),
            len == block@.len(),
            block_no_drops(all),
            rest@.len() <= len,
            forall|k: int| 0 <= k < rest@.len() ==> rest@[k] == block@[k],
            analysis.deferred@ == Seq::<Var>::empty(),
            rev@.len() == len - rest@.len(),
            deferred@.len() == rev@.len(),
            tail_stmts.len() == rev@.len(),
            tail_deferred.len() == rev@.len(),
            forall|k: int| 0 <= k < rev@.len() ==> (#[trigger] rev@[k])@ == tail_stmts[rev@.len() - 1 - k],
            forall|k: int|
                0 <= k < rev@.len() ==> (#[trigger] deferred@[k])@ == tail_deferred[rev@.len() - 1 - k],
            full.stmts == scan_block(all.subrange(0, rest@.len() as int), seen@).stmts + tail_stmts,
            full.deferred == scan_block(all.subrange(0, rest@.len() as int), seen@).deferred
                + tail_deferred,
            full.seen == scan_block(all.subrange(0, rest@.len() as int), seen@).seen,
            full.bindings == scan_block(all.subrange(0, rest@.len() as int), seen@).bindings.union(
                analysis.bindings@,
            ),
        decreases rest.len(),
    {
        let ghost n = rest@.len() as int;
        let ghost prefix = all.subrange(0, n);
        let ghost seen_before = seen@;
        let ghost bound_before = analysis.bindings@;
        let statement = rest.pop().unwrap();
        assert(statement == block@[n - 1]);
        assert(prefix.last() == statement@);
        assert(prefix.drop_last() =~= all.subrange(0, n - 1));
        assert(all[n - 1].no_drops());
        let processed = analysis.process_statement(seen, statement);
        let mut vars: Vec<Var> = Vec::new();
        std::mem::swap(&mut vars, &mut analysis.deferred);
        proof {
            let last = prefix.last().scan(Tally { seen: seen_before, deferred: Seq::empty() });
            let init = scan_block(prefix.drop_last(), last.tally.seen);
            assert(scan_block(prefix, seen_before).stmts == init.stmts.push(last.stmt));
            assert(full.stmts =~= init.stmts + (seq![last.stmt] + tail_stmts));
            assert(full.deferred =~= init.deferred + (seq![last.tally.deferred] + tail_deferred));
            assert(full.bindings =~= init.bindings.union(bound_before.union(last.binds)));
            tail_stmts = seq![last.stmt] + tail_stmts;
            tail_deferred = seq![last.tally.deferred] + tail_deferred;
        }
        rev.push(processed);
        deferred.push(vars);
    }
    proof {
        assert(all.subrange(0, 0) =~= Seq::<StmtV>::empty());
        assert(full.stmts =~= tail_stmts);
        assert(full.deferred =~= tail_deferred);
        assert(full.bindings =~= analysis.bindings@);
    }
    let bindings = analysis.bindings;
    let mut out: Vec<Statement> = Vec::new();
    let mut outer: Vec<Var> = Vec::new();
    assert(block_view(out@) =~= spliced(full.stmts.subrange(0, 0), full.deferred.subrange(0, 0), bindings@));
    assert(full.deferred.subrange(0, 0) =~= Seq::<Seq<Var>>::empty());
    while rev.len() > 0
        invariant
            rev@.len() == deferred@.len(),
            rev@.len() + (full.stmts.len() - rev@.len()) == full.stmts.len(),
            rev@.len() <= full.stmts.len(),
            full.stmts.len() == full.deferred.len(),
            forall|k: int|
                0 <= k < rev@.len() ==> (#[trigger] rev@[k])@ == full.stmts[full.stmts.len() - 1 - k],
            forall|k: int|
                0 <= k < rev@.len() ==> (#[trigger] deferred@[k])@ == full.deferred[full.stmts.len() - 1
                    - k],
            block_view(out@) == spliced(
                full.stmts.subrange(0, full.stmts.len() - rev@.len()),
                full.deferred.subrange(0, full.stmts.len() - rev@.len()),
                bindings@,
            ),
            outer@ == outer_all(
                full.deferred.subrange(0, full.stmts.len() - rev@.len()),
                bindings@,
            ),
        decreases rev.len(),
    {
        let ghost i = full.stmts.len() - rev@.len();
        let ghost out_before = out@;
        let ghost outer_before = outer@;
        let statement = rev.pop().unwrap();
        let vars = deferred.pop().unwrap();
        assert(statement@ == full.stmts[i]);
        assert(vars@ == full.deferred[i]);
        out.push(statement);
        assert(block_view(out@) =~= block_view(out_before).push(full.stmts[i]));
        let ghost out_mid = out@;
        let mut k: usize = 0;
        assert(vars@.subrange(0, 0) =~= Seq::<Var>::empty());
        assert(block_view(out@) =~= block_view(out_mid) + drops_for(vars@.subrange(0, 0), bindings@));
        while k < vars.len()
            invariant
                k <= vars.len(),
                block_view(out@) == block_view(out_mid) + drops_for(
                    vars@.subrange(0, k as int),
                    bindings@,
                ),
            decreases vars.len() - k,
        {
            let ghost before = out@;
            let ghost sub = vars@.subrange(0, k + 1);
            assert(sub.drop_last() =~= vars@.subrange(0, k as int));
            assert(sub.last() == vars@[k as int]);
            if bindings.contains(&vars[k]) {
                out.push(Statement::DropVar(vars[k]));
                assert(block_view(out@) =~= block_view(before).push(StmtV::DropVar(vars@[k as int])));
                assert(block_view(out@) =~= block_view(out_mid) + drops_for(sub, bindings@));
            }
            k += 1;
        }
        assert(vars@.subrange(0, vars@.len() as int) =~= vars@);
        let mut k: usize = vars.len();
        assert(vars@.subrange(vars@.len() as int, vars@.len() as int) =~= Seq::<Var>::empty());
        assert(outer@ =~= outer_before + outer_for(vars@.subrange(k as int, vars@.len() as int), bindings@));
        while k > 0
            invariant
                k <= vars.len(),
                outer@ == outer_before + outer_for(
                    vars@.subrange(k as int, vars@.len() as int),
                    bindings@,
                ),
            decreases k,
        {
            k -= 1;
            let ghost sub = vars@.subrange(k as int, vars@.len() as int);
            assert(sub.drop_first() =~= vars@.subrange(k + 1, vars@.len() as int));
            assert(sub.first() == vars@[k as int]);
            if !bindings.contains(&vars[k]) {
                outer.push(vars[k]);
                assert(outer@ =~= outer_before + outer_for(sub, bindings@));
            }
        }
        proof {
            let s1 = full.stmts.subrange(0, i + 1);
            let d1 = full.deferred.subrange(0, i + 1);
            assert(s1.drop_last() =~= full.stmts.subrange(0, i));
            assert(d1.drop_last() =~= full.deferred.subrange(0, i));
            assert(s1.last() == full.stmts[i]);
            assert(d1.last() == full.deferred[i]);
        }
    }
    proof {
        assert(full.stmts.subrange(0, full.stmts.len() as int) =~= full.stmts);
        assert(full.deferred.subrange(0, full.stmts.len() as int) =~= full.deferred);
    }
    (out, outer)
}

/// Every statement that `drops_for` gives is a drop.
pub proof fn lemma_drops_are_drops(vars: Seq<Var>, bindings: Set<Var>)
    ensures
        forall|i: int|
            0 <= i < drops_for(vars, bindings).len() ==> (#[trigger] drops_for(
                vars,
                bindings,
            )[i]) is DropVar,
    decreases vars.len(),
{
    if vars.len() > 0 {
        lemma_drops_are_drops(vars.drop_last(), bindings);
    }
}

/// Where the block with its drops holds no drop, none was put in: the block
/// is the statements themselves.
pub proof fn lemma_spliced_without_drops(
    stmts: Seq<StmtV>,
    deferred: Seq<Seq<Var>>,
    bindings: Set<Var>,
)
    requires
        stmts.len() == deferred.len(),
        forall|i: int|
            0 <= i < spliced(stmts, deferred, bindings).len() ==> !(#[trigger] spliced(
                stmts,
                deferred,
                bindings,
            )[i] is DropVar),
    ensures
        spliced(stmts, deferred, bindings) == stmts,
    decreases stmts.len(),
{
    if stmts.len() > 0 {
        let init = spliced(stmts.drop_last(), deferred.drop_last(), bindings);
        let tail = drops_for(deferred.last(), bindings);
        let all = spliced(stmts, deferred, bindings);
        assert(all == init.push(stmts.last()) + tail);
        lemma_drops_are_drops(deferred.last(), bindings);
        if tail.len() > 0 {
            assert(all[all.len() - 1] == tail[tail.len() - 1]);
            assert(false);
        }
        assert(all =~= init.push(stmts.last()));
        assert forall|i: int| 0 <= i < init.len() implies !(#[trigger] init[i] is DropVar) by {
            assert(all[i] == init[i]);
        }
        lemma_spliced_without_drops(stmts.drop_last(), deferred.drop_last(), bindings);
        assert(all =~= stmts);
    } else {
        assert(spliced(stmts, deferred, bindings) =~= stmts);
    }
}

/// A statement in which the analysis puts no drop is left as it is.
pub proof fn lemma_scan_without_drops(s: StmtV, t: Tally)
    requires
        s.no_drops(),
        s.scan(t).stmt.no_drops(),
    ensures
        s.scan(t).stmt == s,
    decreases s, 0nat,
{
    match s {
        StmtV::Loop { condition, label, body } => {
            let t1 = match condition {
                Some(c) => t.note_expr(c),
                None => t,
            };
            lemma_analysed_without_drops(body, t1.seen);
        },
        StmtV::IfElse { if_, else_if, else_ } => {
            let first = scan_if(if_, t);
            lemma_analysed_without_drops(if_.body, t.note_expr(if_.condition).seen);
            lemma_scan_ifs_without_drops(else_if, first.tally);
            let others = scan_ifs(else_if, first.tally);
            lemma_analysed_without_drops(else_, others.tally.seen);
        },
        _ => {},
    }
}

/// Branches in which the analysis puts no drop are left as they are.
pub proof fn lemma_scan_ifs_without_drops(branches: Seq<IfV>, t: Tally)
    requires
        ifs_no_drops(branches),
        ifs_no_drops(scan_ifs(branches, t).branches),
    ensures
        scan_ifs(branches, t).branches == branches,
    decreases branches, 0nat,
{
    if branches.len() > 0 {
        let first = scan_if(branches.first(), t);
        let rest = scan_ifs(branches.drop_first(), first.tally);
        let all = scan_ifs(branches, t).branches;
        assert(all == seq![first.branch] + rest.branches);
        assert(all[0] == first.branch);
        assert(block_no_drops(branches[0].body));
        lemma_analysed_without_drops(
            branches.first().body,
            t.note_expr(branches.first().condition).seen,
        );
        assert forall|i: int| 0 <= i < rest.branches.len() implies block_no_drops(
            (#[trigger] rest.branches[i]).body,
        ) by {
            assert(all[i + 1] == rest.branches[i]);
        }
        assert forall|i: int| 0 <= i < branches.drop_first().len() implies block_no_drops(
            (#[trigger] branches.drop_first()[i]).body,
        ) by {
            assert(branches.drop_first()[i] == branches[i + 1]);
        }
        lemma_scan_ifs_without_drops(branches.drop_first(), first.tally);
        assert(all =~= branches);
    } else {
        assert(scan_ifs(branches, t).branches =~= branches);
    }
}

/// The walk leaves a block as it is where it leaves every statement as it
/// is.
pub proof fn lemma_scan_block_without_drops(b: Seq<StmtV>, seen: Set<Var>)
    requires
        block_no_drops(b),
        block_no_drops(scan_block(b, seen).stmts),
    ensures
        scan_block(b, seen).stmts == b,
    decreases b, 0nat,
{
    if b.len() > 0 {
        let last = b.last().scan(Tally { seen, deferred: Seq::empty() });
        let init = scan_block(b.drop_last(), last.tally.seen);
        let all = scan_block(b, seen).stmts;
        assert(all == init.stmts.push(last.stmt));
        lemma_scan_block_len(b.drop_last(), last.tally.seen);
        assert(all[all.len() - 1] == last.stmt);
        assert(b[b.len() - 1].no_drops());
        lemma_scan_without_drops(b.last(), Tally { seen, deferred: Seq::empty() });
        assert forall|i: int| 0 <= i < init.stmts.len() implies (#[trigger] init.stmts[i]).no_drops() by {
            assert(all[i] == init.stmts[i]);
        }
        assert forall|i: int| 0 <= i < b.drop_last().len() implies (#[trigger] b.drop_last()[i]).no_drops() by {
            assert(b.drop_last()[i] == b[i]);
        }
        lemma_scan_block_without_drops(b.drop_last(), last.tally.seen);
        assert(all =~= b);
    } else {
        assert(scan_block(b, seen).stmts =~= b);
    }
}

/// A block in which the analysis puts no drop, at any depth, is left as it
/// is.
pub proof fn lemma_analysed_without_drops(b: Seq<StmtV>, seen: Set<Var>)
    requires
        block_no_drops(b),
        block_no_drops(analysed(b, seen).block),
    ensures
        analysed(b, seen).block == b,
    decreases b, 1nat,
{
    let scan = scan_block(b, seen);
    lemma_scan_block_len(b, seen);
    let out = analysed(b, seen).block;
    assert forall|i: int| 0 <= i < out.len() implies !(#[trigger] out[i] is DropVar) by {
        assert(out[i].no_drops());
    }
    lemma_spliced_without_drops(scan.stmts, scan.deferred, scan.bindings);
    lemma_scan_block_without_drops(b, seen);
}

/// Running the analysis a second time changes nothing.
///
/// The analysis does not take a block that holds a drop. So it can run a
/// second time only on a block into which the first run put none, at any
/// depth; and such a block the first run left as it was.
pub proof fn lemma_analysis_idempotent(b: Seq<StmtV>, seen: Set<Var>)
    requires
        block_no_drops(b),
        block_no_drops(analysed(b, seen).block),
    ensures
        analysed(analysed(b, seen).block, seen) == analysed(b, seen),
{
    lemma_analysed_without_drops(b, seen);
}

/// The walk keeps the length of a block.
pub proof fn lemma_scan_block_len(b: Seq<StmtV>, seen: Set<Var>)
    ensures
        scan_block(b, seen).stmts.len() == b.len(),
        scan_block(b, seen).deferred.len() == b.len(),
    decreases b.len(),
{
    if b.len() > 0 {
        let last = b.last().scan(Tally { seen, deferred: Seq::empty() });
        lemma_scan_block_len(b.drop_last(), last.tally.seen);
    }
}

} // verus!
