use vstd::prelude::*;
use std::collections::BTreeSet;
use crate::bytecode;
use super::codegen::{CodeGenerator, GenView, Var};
use super::scope::{analysed, block_has_no_drops, block_no_drops, process_block, Analysed};
use super::statement::{
    block_lowered, block_ok, block_view, try_compile_block, Statement, StmtV,
};

verus! {

/// A function: the variables that receive its arguments, and its body.
pub struct Function {
    pub args: Vec<Var>,
    pub body: Vec<Statement>,
}

/// The statements that receive the arguments: each variable is bound and
/// then takes the value that the caller left on the stack.
pub open spec fn setup(args: Seq<Var>) -> Seq<StmtV>
    decreases args.len(),
{
    if args.len() == 0 {
        Seq::empty()
    } else {
        setup(args.drop_last()).push(StmtV::BindVar(args.last())).push(StmtV::InitVar(args.last()))
    }
}

impl Function {
    /// The body with the statements that receive the arguments before it.
    pub open spec fn prepared(&self) -> Seq<StmtV> {
        setup(self.args@) + block_view(self.body@)
    }

    /// The analysis of the prepared body.
    pub open spec fn analysed_body(&self) -> Analysed {
        analysed(self.prepared(), Set::empty())
    }

    /// The state of a new generator after the analysed body was lowered.
    pub open spec fn lowered(&self) -> GenView {
        block_lowered(self.analysed_body().block, GenView::fresh())
    }

    /// Whether the function can be compiled: its body holds no `DropVar`,
    /// every variable that it uses is bound in the block of the use or around
    /// it, every statement can be lowered where it stands, and the
    /// instructions are few enough for a jump to span them.
    pub open spec fn compilable(&self) -> bool {
        &&& block_no_drops(block_view(self.body@))
        &&& self.analysed_body().outer.len() == 0
        &&& block_ok(self.analysed_body().block, GenView::fresh())
        &&& self.lowered().ops.len() <= i32::MAX
    }

    /// Puts the statements that receive the arguments before the body.
    fn prepare(self) -> (r: Function)
        ensures
            r.args == self.args,
            block_view(r.body@) == self.prepared(),
            block_no_drops(block_view(self.body@)) ==> block_no_drops(block_view(r.body@)),
    {
        let mut this = self;
        let mut prepared: Vec<Statement> = Vec::new();
        let mut i: usize = 0;
        assert(this.args@.subrange(0, 0) =~= Seq::<Var>::empty());
        assert(block_view(prepared@) =~= setup(this.args@.subrange(0, 0)));
        while i < this.args.len()
            invariant
                i <= this.args.len(),
                this == self,
                block_view(prepared@) == setup(this.args@.subrange(0, i as int)),
                block_no_drops(block_view(prepared@)),
            decreases this.args.len() - i,
        {
            let arg = this.args[i];
            let ghost before = prepared@;
            prepared.push(Statement::BindVar(arg));
            prepared.push(Statement::InitVar(arg));
            proof {
                let sub = this.args@.subrange(0, i + 1);
                assert(sub.drop_last() =~= this.args@.subrange(0, i as int));
                assert(sub.last() == arg);
                assert(block_view(prepared@) =~= block_view(before).push(StmtV::BindVar(arg)).push(
                    StmtV::InitVar(arg),
                ));
            }
            i += 1;
        }
        assert(this.args@.subrange(0, this.args@.len() as int) =~= this.args@);
        let ghost head = prepared@;
        prepared.append(&mut this.body);
        assert(block_view(prepared@) =~= block_view(head) + block_view(self.body@));
        this.body = prepared;
        this
    }

    /// Compiles the function: prepares and analyses the body, lowers it, and
    /// resolves the jumps.
    pub fn compile(self) -> (f: bytecode::Function)
        requires
            self.compilable(),
        ensures
            self.lowered().wf(),
            self.lowered().finalizes_to(f.ops@),
    {
        self.try_compile().unwrap()
    }

    /// Compiles the function if it can be compiled, and gives nothing if it
    /// cannot: if a `DropVar` stands in its body, if a variable is used that
    /// no block around the use binds, if a statement cannot be lowered where
    /// it stands, or if the instructions are too many for a jump to span.
    pub fn try_compile(self) -> (r: Option<bytecode::Function>)
        ensures
            r is Some <==> self.compilable(),
            r matches Some(f) ==> self.lowered().wf() && self.lowered().finalizes_to(f.ops@),
    {
        if !block_has_no_drops(&self.body) {
            return None;
        }
        let mut this = self.prepare();
        match this.block_scope_analysis() {
            Ok(_) => {},
            Err(_) => {
                return None;
            },
        }
        let mut g = CodeGenerator::new();
        if !try_compile_block(&this.body, &mut g) {
            return None;
        }
        if g.len() > 2147483647usize {
            return None;
        }
        Some(bytecode::Function { ops: g.into_vec() })
    }

    /// Inserts the drops into the body. Returns the variables that are used
    /// but bound nowhere, if there are any.
    pub fn block_scope_analysis(&mut self) -> (r: Result<(), Vec<Var>>)
        requires
            block_no_drops(block_view(old(self).body@)),
        ensures
            final(self).args == old(self).args,
            block_view(final(self).body@) == analysed(
                block_view(old(self).body@),
                Set::empty(),
            ).block,
            match r {
                Ok(_) => analysed(block_view(old(self).body@), Set::empty()).outer.len() == 0,
                Err(vars) => vars@.len() > 0 && vars@ == analysed(
                    block_view(old(self).body@),
                    Set::empty(),
                ).outer,
            },
    {
        let mut seen: BTreeSet<Var> = BTreeSet::new();
        let mut body: Vec<Statement> = Vec::new();
        std::mem::swap(&mut body, &mut self.body);
        let (body, unknown_scope_vars) = process_block(&mut seen, body);
        self.body = body;
        if unknown_scope_vars.len() == 0 {
            Ok(())
        } else {
            Err(unknown_scope_vars)
        }
    }
}

} // verus!
