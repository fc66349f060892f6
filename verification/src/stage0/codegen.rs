use vstd::prelude::*;
use std::collections::BTreeMap;
use crate::bytecode::Op;

verus! {

/// A symbolic position in the instruction stream.
pub type Label = usize;

/// The identifier of a local variable.
pub type Var = usize;

/// What is known of one label: where it points, once that is decided, and
/// which jumps wait for it.
pub struct LabelData {
    target: Option<usize>,
    jumps: Vec<usize>,
}

/// A label as contracts see it.
pub struct LabelView {
    pub target: Option<usize>,
    pub jumps: Seq<usize>,
}

impl View for LabelData {
    type V = LabelView;

    closed spec fn view(&self) -> LabelView {
        LabelView { target: self.target, jumps: self.jumps@ }
    }
}

impl LabelData {
    pub fn new() -> (l: LabelData)
        ensures
            l@ == (LabelView { target: None, jumps: Seq::empty() }),
    {
        LabelData { target: None, jumps: Vec::new() }
    }

    /// Decides where the label points. A label is placed once.
    pub fn set_target(&mut self, target: usize)
        requires
            old(self)@.target is None,
        ensures
            final(self)@ == (LabelView { target: Some(target), jumps: old(self)@.jumps }),
    {
        self.target = Some(target);
    }

    /// Where the label points.
    pub fn get_target(&self) -> (t: usize)
        requires
            self@.target is Some,
        ensures
            Some(t) == self@.target,
    {
        self.target.unwrap()
    }
}

/// The state of a [`CodeGenerator`] as contracts see it.
pub struct GenView {
    /// The instructions emitted so far; jumps still carry a distance of 0.
    pub ops: Seq<Op>,
    pub labels: Seq<LabelView>,
    /// The labels of the loops that were entered under a name.
    pub loops: Map<usize, (Label, Label)>,
    /// The `(continue, break)` labels of the loops entered, innermost last.
    pub loop_stack: Seq<(Label, Label)>,
    /// The slot of each variable that is bound.
    pub vars: Map<Var, u8>,
    /// The slots that were released, the one to be reused next last.
    pub dropped: Seq<u8>,
    /// The lowest slot that was never handed out.
    pub next_index: u8,
}

impl GenView {
    /// The state of a generator that has emitted nothing. Slot 0 belongs to
    /// the module, so the first variable gets slot 1.
    pub open spec fn fresh() -> GenView {
        GenView {
            ops: Seq::empty(),
            labels: Seq::empty(),
            loops: Map::empty(),
            loop_stack: Seq::empty(),
            vars: Map::empty(),
            dropped: Seq::empty(),
            next_index: 1,
        }
    }

    /// Every recorded jump is the position of a jump instruction, and no
    /// position is recorded twice.
    pub open spec fn wf(self) -> bool {
        &&& self.ops.len() <= usize::MAX
        &&& self.labels.len() <= usize::MAX
        &&& forall|l: int|
            0 <= l < self.labels.len() && (#[trigger] self.labels[l]).target is Some
                ==> self.labels[l].target->0 <= self.ops.len()
        &&& forall|l: int, k: int|
            0 <= l < self.labels.len() && 0 <= k < self.labels[l].jumps.len() ==> {
                &&& (#[trigger] self.labels[l].jumps[k]) < self.ops.len()
                &&& self.ops[self.labels[l].jumps[k] as int].is_jump()
            }
        &&& forall|l1: int, k1: int, l2: int, k2: int|
            0 <= l1 < self.labels.len() && 0 <= k1 < self.labels[l1].jumps.len() && 0 <= l2
                < self.labels.len() && 0 <= k2 < self.labels[l2].jumps.len()
                && #[trigger] self.labels[l1].jumps[k1] == #[trigger] self.labels[l2].jumps[k2]
                ==> l1 == l2 && k1 == k2
    }

    pub open spec fn push(self, op: Op) -> GenView {
        GenView { ops: self.ops.push(op), ..self }
    }

    /// The label that `create_label` hands out next.
    pub open spec fn next_label(self) -> Label {
        self.labels.len() as usize
    }

    pub open spec fn create_label(self) -> GenView {
        GenView {
            labels: self.labels.push(LabelView { target: None, jumps: Seq::empty() }),
            ..self
        }
    }

    /// Whether `label` exists and was not placed yet.
    pub open spec fn can_label_here(self, label: Label) -> bool {
        label < self.labels.len() && self.labels[label as int].target is None
    }

    pub open spec fn label_here(self, label: Label) -> GenView {
        GenView {
            labels: self.labels.update(
                label as int,
                LabelView {
                    target: Some(self.ops.len() as usize),
                    jumps: self.labels[label as int].jumps,
                },
            ),
            ..self
        }
    }

    pub open spec fn can_push_jump(self, label: Label, jump: Op) -> bool {
        label < self.labels.len() && jump.is_jump()
    }

    pub open spec fn push_jump(self, label: Label, jump: Op) -> GenView {
        GenView {
            ops: self.ops.push(jump),
            labels: self.labels.update(
                label as int,
                LabelView {
                    target: self.labels[label as int].target,
                    jumps: self.labels[label as int].jumps.push(self.ops.len() as usize),
                },
            ),
            ..self
        }
    }

    pub open spec fn can_loop_enter(self, loop_id: Option<usize>) -> bool {
        loop_id matches Some(id) ==> !self.loops.contains_key(id)
    }

    pub open spec fn loop_enter(self, loop_id: Option<usize>) -> GenView {
        let pair = (self.labels.len() as usize, (self.labels.len() + 1) as usize);
        let g = self.create_label().create_label();
        GenView {
            loop_stack: g.loop_stack.push(pair),
            loops: match loop_id {
                Some(id) => g.loops.insert(id, pair),
                None => g.loops,
            },
            ..g
        }
    }

    pub open spec fn can_loop_exit(self, loop_id: Option<usize>) -> bool {
        loop_id matches Some(id) ==> self.loops.contains_key(id)
    }

    pub open spec fn loop_exit(self, loop_id: Option<usize>) -> GenView {
        GenView {
            loop_stack: if self.loop_stack.len() > 0 {
                self.loop_stack.drop_last()
            } else {
                self.loop_stack
            },
            loops: match loop_id {
                Some(id) => self.loops.remove(id),
                None => self.loops,
            },
            ..self
        }
    }

    /// Whether a loop can be found: by its name where one is given, else the
    /// innermost.
    pub open spec fn has_loop(self, loop_id: Option<usize>) -> bool {
        match loop_id {
            Some(id) => self.loops.contains_key(id),
            None => self.loop_stack.len() > 0,
        }
    }

    /// The `(continue, break)` labels of a loop.
    pub open spec fn loop_labels(self, loop_id: Option<usize>) -> (Label, Label) {
        match loop_id {
            Some(id) => self.loops[id],
            None => self.loop_stack.last(),
        }
    }

    /// Whether a slot is left for one more variable.
    pub open spec fn has_free_slot(self) -> bool {
        self.dropped.len() > 0 || self.next_index < u8::MAX
    }

    /// The slot that the next variable gets: the one released last, else the
    /// lowest that was never used.
    pub open spec fn next_slot(self) -> u8 {
        if self.dropped.len() > 0 {
            self.dropped.last()
        } else {
            self.next_index
        }
    }

    pub open spec fn take_slot(self) -> GenView {
        if self.dropped.len() > 0 {
            GenView { dropped: self.dropped.drop_last(), ..self }
        } else {
            GenView { next_index: (self.next_index + 1) as u8, ..self }
        }
    }

    pub open spec fn can_bind_var(self, var: Var) -> bool {
        self.has_free_slot() && !self.vars.contains_key(var)
    }

    pub open spec fn bind_var(self, var: Var) -> GenView {
        let g = self.take_slot();
        GenView { vars: g.vars.insert(var, self.next_slot()), ..g }
    }

    pub open spec fn drop_var(self, var: Var) -> GenView {
        GenView {
            vars: self.vars.remove(var),
            dropped: self.dropped.push(self.vars[var]),
            ..self
        }
    }

    pub open spec fn push_var_load(self, var: Var) -> GenView {
        self.push(Op::StackLoad(self.vars[var]))
    }

    pub open spec fn push_var_store(self, var: Var) -> GenView {
        self.push(Op::StackStore(self.vars[var]))
    }

    /// Whether the instructions can be finished: every label is placed and
    /// every distance fits a jump.
    pub open spec fn can_finalize(self) -> bool {
        &&& self.ops.len() <= i32::MAX
        &&& forall|l: int| 0 <= l < self.labels.len() ==> (#[trigger] self.labels[l]).target is Some
    }

    /// Whether `ops` are the finished instructions of this state: every
    /// recorded jump carries the distance from its own position to the place
    /// of its label, and everything else is as it was emitted.
    pub open spec fn finalizes_to(self, ops: Seq<Op>) -> bool {
        &&& ops.len() == self.ops.len()
        &&& forall|l: int, k: int|
            0 <= l < self.labels.len() && 0 <= k < self.labels[l].jumps.len() ==> {
                let j = #[trigger] self.labels[l].jumps[k];
                &&& ops[j as int].dest() == self.labels[l].target->0 - j
                &&& ops[j as int] == self.ops[j as int].with_dest(ops[j as int].dest())
            }
        &&& forall|i: int|
            0 <= i < ops.len() && !(exists|l: int, k: int| self.jump_at(l, k, i)) ==> ops[i]
                == self.ops[i]
    }

    /// Whether position `i` is recorded as jump number `k` of label `l`.
    pub open spec fn jump_at(self, l: int, k: int, i: int) -> bool {
        0 <= l < self.labels.len() && 0 <= k < self.labels[l].jumps.len()
            && self.labels[l].jumps[k] == i
    }
}

/// Emits instructions and resolves the jumps among them.
///
/// A jump is emitted before the place it leads to is known. It names a label;
/// the label is placed later, and `into_vec` writes into every jump the
/// distance from the jump to the place of its label.
pub struct CodeGenerator {
    ops: Vec<Op>,
    labels: Vec<LabelData>,
    loops: BTreeMap<usize, (Label, Label)>,
    loop_stack: Vec<(Label, Label)>,
    vars: BTreeMap<Var, u8>,
    dropped: Vec<u8>,
    next_index: u8,
}

impl View for CodeGenerator {
    type V = GenView;

    closed spec fn view(&self) -> GenView {
        GenView {
            ops: self.ops@,
            labels: Seq::new(self.labels@.len(), |i: int| self.labels@[i]@),
            loops: self.loops@,
            loop_stack: self.loop_stack@,
            vars: self.vars@,
            dropped: self.dropped@,
            next_index: self.next_index,
        }
    }
}

impl CodeGenerator {
    /// The positions and the labels of a generator are machine numbers.
    pub proof fn lemma_bounded(&self)
        ensures
            self@.ops.len() <= usize::MAX,
            self@.labels.len() <= usize::MAX,
    {
        assert(self.ops.len() <= usize::MAX);
        assert(self.labels.len() <= usize::MAX);
    }

    pub fn new() -> (g: CodeGenerator)
        ensures
            g@ == GenView::fresh(),
    {
        let g = CodeGenerator {
            ops: Vec::new(),
            labels: Vec::new(),
            loops: BTreeMap::new(),
            loop_stack: Vec::new(),
            vars: BTreeMap::new(),
            dropped: Vec::new(),
            next_index: 1,
        };
        assert(g@.labels =~= Seq::empty());
        g
    }

    /// Appends an instruction.
    pub fn push(&mut self, op: Op)
        ensures
            final(self)@ == old(self)@.push(op),
            old(self)@.wf() ==> final(self)@.wf(),
    {
        self.ops.push(op);
        assert(self@.labels =~= old(self)@.labels);
        assert(self.ops.len() <= usize::MAX);
    }

    /// Makes a label that is not placed yet.
    pub fn create_label(&mut self) -> (label: Label)
        ensures
            label == old(self)@.labels.len(),
            label == old(self)@.next_label(),
            final(self)@ == old(self)@.create_label(),
            old(self)@.wf() ==> final(self)@.wf(),
    {
        let label = self.labels.len();
        self.labels.push(LabelData::new());
        assert(self@.labels =~= old(self)@.create_label().labels);
        assert(self.labels.len() <= usize::MAX);
        label
    }

    /// Places a label at the instruction that is emitted next.
    pub fn label_here(&mut self, label: Label)
        requires
            old(self)@.can_label_here(label),
        ensures
            final(self)@ == old(self)@.label_here(label),
            old(self)@.wf() ==> final(self)@.wf(),
    {
        let target = self.ops.len();
        let mut data = LabelData::new();
        std::mem::swap(&mut data, &mut self.labels[label]);
        data.set_target(target);
        self.labels.set(label, data);
        assert(self@.labels =~= old(self)@.label_here(label).labels);
    }

    /// Appends a jump that leads to `label`. Its distance is written by
    /// `into_vec`.
    pub fn push_jump(&mut self, label: Label, jump: Op)
        requires
            old(self)@.can_push_jump(label, jump),
        ensures
            final(self)@ == old(self)@.push_jump(label, jump),
            old(self)@.wf() ==> final(self)@.wf(),
    {
        let i = self.ops.len();
        self.ops.push(jump);
        self.labels[label].jumps.push(i);
        assert(self@.labels =~= old(self)@.push_jump(label, jump).labels);
        proof {
            assert(self.ops.len() <= usize::MAX);
            if old(self)@.wf() {
                lemma_push_jump_wf(old(self)@, label, jump);
            }
        }
    }

    /// Enters a loop: makes its `continue` and `break` labels and remembers
    /// them as the innermost loop, and under `loop_id` where one is given.
    pub fn loop_enter(&mut self, loop_id: Option<usize>)
        requires
            old(self)@.can_loop_enter(loop_id),
        ensures
            final(self)@ == old(self)@.loop_enter(loop_id),
            old(self)@.wf() ==> final(self)@.wf(),
    {
        let label_continue = self.create_label();
        let label_break = self.create_label();
        self.loop_stack.push((label_continue, label_break));
        if let Some(loop_id) = loop_id {
            self.loops.insert(loop_id, (label_continue, label_break));
        }
        assert(self@.labels =~= old(self)@.loop_enter(loop_id).labels);
    }

    /// Leaves the innermost loop, and forgets the name `loop_id`.
    pub fn loop_exit(&mut self, loop_id: Option<usize>)
        requires
            old(self)@.can_loop_exit(loop_id),
        ensures
            final(self)@ == old(self)@.loop_exit(loop_id),
            old(self)@.wf() ==> final(self)@.wf(),
    {
        self.loop_stack.pop();
        if let Some(loop_id) = loop_id {
            self.loops.remove(&loop_id);
        }
        assert(self@.labels =~= old(self)@.labels);
        assert(self@.loop_stack =~= old(self)@.loop_exit(loop_id).loop_stack);
    }

    fn get_loop_labels(&self, loop_id: Option<usize>) -> (labels: (Label, Label))
        requires
            self@.has_loop(loop_id),
        ensures
            labels == self@.loop_labels(loop_id),
    {
        self.find_loop(loop_id).unwrap()
    }

    /// The label at which a loop starts over.
    pub fn loop_get_continue(&self, loop_id: Option<usize>) -> (label: Label)
        requires
            self@.has_loop(loop_id),
        ensures
            label == self@.loop_labels(loop_id).0,
    {
        self.get_loop_labels(loop_id).0
    }

    /// The label behind the end of a loop.
    pub fn loop_get_break(&self, loop_id: Option<usize>) -> (label: Label)
        requires
            self@.has_loop(loop_id),
        ensures
            label == self@.loop_labels(loop_id).1,
    {
        self.get_loop_labels(loop_id).1
    }

    /// The number of instructions emitted so far.
    pub fn len(&self) -> (n: usize)
        ensures
            n == self@.ops.len(),
    {
        self.ops.len()
    }

    /// The number of labels made so far.
    pub fn label_count(&self) -> (n: usize)
        ensures
            n == self@.labels.len(),
    {
        self.labels.len()
    }

    /// Whether a loop can be entered under this name.
    pub fn can_enter(&self, loop_id: Option<usize>) -> (r: bool)
        ensures
            r == self@.can_loop_enter(loop_id),
    {
        match loop_id {
            Some(id) => self.loops.get(&id).is_none(),
            None => true,
        }
    }

    /// The `(continue, break)` labels of a loop, where the loop can be found.
    pub fn find_loop(&self, loop_id: Option<usize>) -> (r: Option<(Label, Label)>)
        ensures
            r is Some <==> self@.has_loop(loop_id),
            r matches Some(labels) ==> labels == self@.loop_labels(loop_id),
    {
        match loop_id {
            Some(id) => match self.loops.get(&id) {
                Some(l) => Some(*l),
                None => None,
            },
            None => if self.loop_stack.len() > 0 {
                Some(self.loop_stack[self.loop_stack.len() - 1])
            } else {
                None
            },
        }
    }

    /// Whether a variable is bound.
    pub fn is_bound(&self, var: Var) -> (r: bool)
        ensures
            r == self@.vars.contains_key(var),
    {
        self.vars.get(&var).is_some()
    }

    /// Whether a variable can be bound: it is not bound, and a slot is left.
    pub fn can_bind(&self, var: Var) -> (r: bool)
        ensures
            r == self@.can_bind_var(var),
    {
        (self.dropped.len() > 0 || self.next_index < u8::MAX) && !self.is_bound(var)
    }

    fn get_next_var_index(&mut self) -> (index: u8)
        requires
            old(self)@.has_free_slot(),
        ensures
            index == old(self)@.next_slot(),
            final(self)@ == old(self)@.take_slot(),
    {
        let index: u8 = match self.dropped.pop() {
            Some(i) => i,
            None => {
                let i: u8 = self.next_index;
                self.next_index += 1;
                i
            },
        };
        assert(self@.labels =~= old(self)@.labels);
        assert(self@.dropped =~= old(self)@.take_slot().dropped);
        index
    }

    /// Gives a variable a slot: the one released last, else a new one.
    pub fn bind_var(&mut self, var: Var)
        requires
            old(self)@.can_bind_var(var),
        ensures
            final(self)@ == old(self)@.bind_var(var),
            old(self)@.wf() ==> final(self)@.wf(),
    {
        let index = self.get_next_var_index();
        self.vars.insert(var, index);
        assert(self@.labels =~= old(self)@.labels);
    }

    /// Releases the slot of a variable for reuse.
    pub fn drop_var(&mut self, var: Var)
        requires
            old(self)@.vars.contains_key(var),
        ensures
            final(self)@ == old(self)@.drop_var(var),
            old(self)@.wf() ==> final(self)@.wf(),
    {
        let index = self.vars.remove(&var).unwrap();
        self.dropped.push(index);
        assert(self@.labels =~= old(self)@.labels);
    }

    fn get_var_index(&self, var: Var) -> (index: u8)
        requires
            self@.vars.contains_key(var),
        ensures
            index == self@.vars[var],
    {
        *self.vars.get(&var).unwrap()
    }

    /// Emits the load of a variable's slot.
    pub fn push_var_load(&mut self, var: Var)
        requires
            old(self)@.vars.contains_key(var),
        ensures
            final(self)@ == old(self)@.push_var_load(var),
            old(self)@.wf() ==> final(self)@.wf(),
    {
        let index = self.get_var_index(var);
        self.push(Op::StackLoad(index));
    }

    /// Emits the store into a variable's slot.
    pub fn push_var_store(&mut self, var: Var)
        requires
            old(self)@.vars.contains_key(var),
        ensures
            final(self)@ == old(self)@.push_var_store(var),
            old(self)@.wf() ==> final(self)@.wf(),
    {
        let index = self.get_var_index(var);
        self.push(Op::StackStore(index));
    }

    /// Finishes the instructions: every jump gets the distance from its own
    /// position to the place of its label, and nothing else changes.
#[verifier::rlimit(50)]
    pub fn into_vec(self) -> (ops: Vec<Op>)
        requires
            self@.wf(),
            self@.can_finalize(),
        ensures
            self@.finalizes_to(ops@),
    {
        let ghost g = self@;
        let mut ops = self.ops;
        let labels = self.labels;
        assert(g.labels =~= Seq::new(labels@.len(), |i: int| labels@[i]@));
        let mut l: usize = 0;
        while l < labels.len()
            invariant
                g.wf(),
                g.can_finalize(),
                l <= labels.len(),
                g.labels.len() == labels@.len(),
                forall|i: int| 0 <= i < labels@.len() ==> g.labels[i] == #[trigger] labels@[i]@,
                ops@.len() == g.ops.len(),
                forall|l2: int, k: int|
                    0 <= l2 < l && 0 <= k < g.labels[l2].jumps.len() ==> {
                        let j = #[trigger] g.labels[l2].jumps[k];
                        &&& ops@[j as int].dest() == g.labels[l2].target->0 - j
                        &&& ops@[j as int] == g.ops[j as int].with_dest(ops@[j as int].dest())
                    },
                forall|i: int|
                    0 <= i < ops@.len() && !(exists|l2: int, k: int|
                        l2 < l && g.jump_at(l2, k, i)) ==> ops@[i] == g.ops[i],
            decreases labels.len() - l,
        {
            let label = &labels[l];
            assert(g.labels[l as int] == label@);
            let target: usize = label.get_target();
            let mut k: usize = 0;
            while k < label.jumps.len()
                invariant
                    g.wf(),
                    g.can_finalize(),
                    l < labels.len(),
                    g.labels.len() == labels@.len(),
                    g.labels[l as int] == label@,
                    label@.jumps == label.jumps@,
                    Some(target) == label@.target,
                    k <= label.jumps.len(),
                    ops@.len() == g.ops.len(),
                    forall|l2: int, k2: int|
                        (0 <= l2 < l && 0 <= k2 < g.labels[l2].jumps.len()) || (l2 == l && 0 <= k2
                            < k) ==> {
                            let j = #[trigger] g.labels[l2].jumps[k2];
                            &&& ops@[j as int].dest() == g.labels[l2].target->0 - j
                            &&& ops@[j as int] == g.ops[j as int].with_dest(ops@[j as int].dest())
                        },
                    forall|i: int|
                        0 <= i < ops@.len() && !(exists|l2: int, k2: int|
                            (l2 < l || (l2 == l && k2 < k)) && g.jump_at(l2, k2, i)) ==> ops@[i]
                            == g.ops[i],
                decreases label.jumps.len() - k,
            {
                let jump: usize = label.jumps[k];
                assert(jump == g.labels[l as int].jumps[k as int]);
                assert(g.jump_at(l as int, k as int, jump as int));
                let distance: i32 = distance_between(target, jump);
                let patched = ops[jump].set_dest(distance);
                let ghost before = ops@;
                assert(before[jump as int] == g.ops[jump as int]) by {
                    if exists|l2: int, k2: int|
                        (l2 < l || (l2 == l && k2 < k)) && g.jump_at(l2, k2, jump as int) {
                        let (l2, k2) = choose|l2: int, k2: int|
                            (l2 < l || (l2 == l && k2 < k)) && g.jump_at(l2, k2, jump as int);
                        assert(g.labels[l2].jumps[k2] == g.labels[l as int].jumps[k as int]);
                    }
                }
                ops.set(jump, patched);
                assert forall|l2: int, k2: int|
                    (0 <= l2 < l && 0 <= k2 < g.labels[l2].jumps.len()) || (l2 == l && 0 <= k2 < k
                        + 1) implies {
                    let j = #[trigger] g.labels[l2].jumps[k2];
                    &&& ops@[j as int].dest() == g.labels[l2].target->0 - j
                    &&& ops@[j as int] == g.ops[j as int].with_dest(ops@[j as int].dest())
                } by {
                    let j = g.labels[l2].jumps[k2];
                    if l2 == l && k2 == k {
                    } else {
                        assert(j != jump);
                    }
                }
                assert forall|i: int|
                    0 <= i < ops@.len() && !(exists|l2: int, k2: int|
                        (l2 < l || (l2 == l && k2 < k + 1)) && g.jump_at(l2, k2, i)) implies ops@[i]
                    == g.ops[i] by {
                    if i == jump {
                        assert(g.jump_at(l as int, k as int, i));
                    } else {
                        if exists|l2: int, k2: int|
                            (l2 < l || (l2 == l && k2 < k)) && g.jump_at(l2, k2, i) {
                            let (l2, k2) = choose|l2: int, k2: int|
                                (l2 < l || (l2 == l && k2 < k)) && g.jump_at(l2, k2, i);
                            assert((l2 < l || (l2 == l && k2 < k + 1)) && g.jump_at(l2, k2, i));
                        }
                    }
                }
                k += 1;
            }
            assert forall|i: int|
                0 <= i < ops@.len() && !(exists|l2: int, k2: int|
                    l2 < l + 1 && g.jump_at(l2, k2, i)) implies ops@[i] == g.ops[i] by {
                if exists|l2: int, k2: int|
                    (l2 < l || (l2 == l && k2 < k)) && g.jump_at(l2, k2, i) {
                    let (l2, k2) = choose|l2: int, k2: int|
                        (l2 < l || (l2 == l && k2 < k)) && g.jump_at(l2, k2, i);
                    assert(l2 < l + 1 && g.jump_at(l2, k2, i));
                }
            }
            l += 1;
        }
        assert forall|i: int|
            0 <= i < ops@.len() && !(exists|l2: int, k: int| g.jump_at(l2, k, i)) implies ops@[i]
            == g.ops[i] by {
            if exists|l2: int, k: int| l2 < l && g.jump_at(l2, k, i) {
                let (l2, k) = choose|l2: int, k: int| l2 < l && g.jump_at(l2, k, i);
                assert(g.jump_at(l2, k, i));
            }
        }
        ops
    }
}

/// The distance from a jump to its target.
fn distance_between(target: usize, jump: usize) -> (d: i32)
    requires
        target <= i32::MAX,
        jump <= i32::MAX,
    ensures
        d == target - jump,
{
    let t: i32 = target as i32;
    let j: i32 = jump as i32;
    t - j
}

/// The finished instructions are determined by the state: two sequences that
/// both finish the same state are equal.
pub proof fn lemma_finalized_unique(g: GenView, a: Seq<Op>, b: Seq<Op>)
    requires
        g.wf(),
        g.finalizes_to(a),
        g.finalizes_to(b),
    ensures
        a == b,
{
    assert forall|i: int| 0 <= i < a.len() implies a[i] == b[i] by {
        if exists|l: int, k: int| g.jump_at(l, k, i) {
            let (l, k) = choose|l: int, k: int| g.jump_at(l, k, i);
            assert(g.labels[l].jumps[k] == i);
        }
    }
    assert(a =~= b);
}

/// Every jump leads to the place of its label.
///
/// After the instructions are finished, a jump that was recorded for a label
/// carries the distance from its own position to the place of the label. The
/// machine has moved its cursor one past the jump when it applies the
/// distance, and counts the distance from the jump itself: so it goes on
/// exactly at the place of the label.
pub proof fn lemma_jumps_land(g: GenView, ops: Seq<Op>, l: int, k: int)
    requires
        g.wf(),
        g.can_finalize(),
        g.finalizes_to(ops),
        0 <= l < g.labels.len(),
        0 <= k < g.labels[l].jumps.len(),
    ensures
        ops[g.labels[l].jumps[k] as int].is_jump(),
        ops[g.labels[l].jumps[k] as int].dest() == g.labels[l].target->0 - g.labels[l].jumps[k],
        crate::callframe::jumped(
            (g.labels[l].jumps[k] + 1) as usize,
            ops[g.labels[l].jumps[k] as int].dest(),
        ) == g.labels[l].target->0,
{
    let j = g.labels[l].jumps[k];
    assert(g.labels[l].target is Some);
    assert(g.labels[l].target->0 <= g.ops.len());
    assert(g.ops[j as int].is_jump());
}

/// Recording a new jump keeps the records sound.
pub proof fn lemma_push_jump_wf(g: GenView, label: Label, jump: Op)
    requires
        g.wf(),
        g.can_push_jump(label, jump),
        g.ops.len() < usize::MAX,
    ensures
        g.push_jump(label, jump).wf(),
{
    let h = g.push_jump(label, jump);
    assert forall|l: int, k: int|
        0 <= l < h.labels.len() && 0 <= k < h.labels[l].jumps.len() implies {
        &&& (#[trigger] h.labels[l].jumps[k]) < h.ops.len()
        &&& h.ops[h.labels[l].jumps[k] as int].is_jump()
    } by {
        if l == label && k == g.labels[l].jumps.len() {
        } else {
            assert(h.labels[l].jumps[k] == g.labels[l].jumps[k]);
        }
    }
    assert forall|l1: int, k1: int, l2: int, k2: int|
        0 <= l1 < h.labels.len() && 0 <= k1 < h.labels[l1].jumps.len() && 0 <= l2
            < h.labels.len() && 0 <= k2 < h.labels[l2].jumps.len()
            && #[trigger] h.labels[l1].jumps[k1] == #[trigger] h.labels[l2].jumps[k2] implies l1
        == l2 && k1 == k2 by {
        let new1 = l1 == label && k1 == g.labels[l1].jumps.len();
        let new2 = l2 == label && k2 == g.labels[l2].jumps.len();
        if !new1 {
            assert(h.labels[l1].jumps[k1] == g.labels[l1].jumps[k1]);
        }
        if !new2 {
            assert(h.labels[l2].jumps[k2] == g.labels[l2].jumps[k2]);
        }
    }
}

} // verus!
