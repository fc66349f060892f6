use vstd::prelude::*;
use crate::bytecode::OpError;
use crate::datamodel::tuple::nils;
use crate::datamodel::Value;

verus! {

/// The values of one call: the operands, last pushed last, and the local
/// slots.
pub struct CallStack {
    pub stack: Vec<Value>,
    pub locals: Vec<Value>,
}

/// A [`CallStack`] as contracts see it.
pub struct CallStackView {
    pub stack: Seq<Value>,
    pub locals: Seq<Value>,
}

impl View for CallStack {
    type V = CallStackView;

    open spec fn view(&self) -> CallStackView {
        CallStackView { stack: self.stack@, locals: self.locals@ }
    }
}

impl CallStackView {
    /// The operand `depth` places below the top.
    pub open spec fn top(self, depth: int) -> Value {
        self.stack[self.stack.len() - 1 - depth]
    }

    /// The stack without its top `n` operands.
    pub open spec fn popped(self, n: int) -> CallStackView {
        CallStackView { stack: self.stack.subrange(0, self.stack.len() - n), ..self }
    }

    /// The stack with one more operand.
    pub open spec fn pushed(self, v: Value) -> CallStackView {
        CallStackView { stack: self.stack.push(v), ..self }
    }

    /// The top `n` operands, the topmost first.
    pub open spec fn taken(self, n: int) -> Seq<Value> {
        Seq::new(n as nat, |i: int| self.top(i))
    }

    /// The local slots made long enough to have slot `index`: new slots hold
    /// nothing.
    pub open spec fn grown(self, index: u8) -> Seq<Value> {
        if index < self.locals.len() {
            self.locals
        } else {
            self.locals + nils((index + 1 - self.locals.len()) as nat)
        }
    }

    /// What local slot `index` holds: nothing, where it was never stored to.
    pub open spec fn local(self, index: u8) -> Value {
        if index < self.locals.len() {
            self.locals[index as int]
        } else {
            Value::Nil
        }
    }

    /// The stack with `v` in local slot `index`.
    pub open spec fn stored(self, index: u8, v: Value) -> CallStackView {
        CallStackView { locals: self.grown(index).update(index as int, v), ..self }
    }
}

impl CallStack {
    pub fn new() -> (m: CallStack)
        ensures
            m@ == (CallStackView { stack: Seq::empty(), locals: Seq::empty() }),
    {
        CallStack { stack: Vec::new(), locals: Vec::new() }
    }

    /// What local slot `index` holds. A slot beyond those stored to so far
    /// cannot be read.
    pub fn load(&self, index: u8) -> (r: Result<&Value, OpError>)
        ensures
            match r {
                Ok(v) => index < self@.locals.len() && *v == self@.locals[index as int],
                Err(e) => index >= self@.locals.len() && e == OpError::LocalRead(index),
            },
    {
        let at = index as usize;
        if at < self.locals.len() {
            Ok(&self.locals[at])
        } else {
            Err(OpError::LocalRead(index))
        }
    }

    fn make_room(&mut self, index: u8)
        ensures
            final(self)@ == (CallStackView { locals: old(self)@.grown(index), ..old(self)@ }),
            index < final(self)@.locals.len(),
    {
        let at = index as usize;
        let ghost before = self.locals@;
        if at < self.locals.len() {
            return ;
        }
        assert(before + nils(0) =~= before);
        while self.locals.len() <= at
            invariant
                at == index,
                self.stack@ == old(self).stack@,
                before == old(self).locals@,
                before.len() <= self.locals@.len() <= at + 1,
                self.locals@ == before + nils((self.locals@.len() - before.len()) as nat),
            decreases at + 1 - self.locals.len(),
        {
            self.locals.push(Value::Nil);
            assert(self.locals@ =~= before + nils((self.locals@.len() - before.len()) as nat));
        }
    }

    /// Puts `val` into local slot `index` and returns what the slot held.
    /// The slots are made as many as needed; new ones hold nothing.
    pub fn store(&mut self, index: u8, val: Value) -> (previous: Value)
        ensures
            previous == old(self)@.local(index),
            final(self)@ == old(self)@.stored(index, val),
    {
        self.make_room(index);
        let at = index as usize;
        let previous = self.locals[at];
        self.locals.set(at, val);
        previous
    }

    /// Exchanges `val` with what local slot `index` holds.
    pub fn swap(&mut self, index: u8, val: &mut Value)
        ensures
            *final(val) == old(self)@.local(index),
            final(self)@ == old(self)@.stored(index, *old(val)),
    {
        let previous = self.store(index, *val);
        *val = previous;
    }

    /// Puts an operand on the stack.
    pub fn push(&mut self, val: Value)
        ensures
            final(self)@ == old(self)@.pushed(val),
    {
        self.stack.push(val);
    }

    /// Takes the top operand off the stack.
    pub fn pop(&mut self) -> (r: Result<Value, OpError>)
        ensures
            match r {
                Ok(v) => old(self)@.stack.len() > 0 && v == old(self)@.top(0) && final(self)@
                    == old(self)@.popped(1),
                Err(e) => old(self)@.stack.len() == 0 && e == OpError::StackEmpty && final(self)@
                    == old(self)@,
            },
    {
        match self.stack.pop() {
            Some(v) => Ok(v),
            None => Err(OpError::StackEmpty),
        }
    }

    /// The number of operands on the stack.
    pub fn depth(&self) -> (n: usize)
        ensures
            n == self@.stack.len(),
    {
        self.stack.len()
    }

    /// The operand `depth` places below the top, which stays where it is.
    pub fn peek(&self, depth: usize) -> (r: Result<Value, OpError>)
        ensures
            match r {
                Ok(v) => depth < self@.stack.len() && v == self@.top(depth as int),
                Err(e) => depth >= self@.stack.len() && e == OpError::StackEmpty,
            },
    {
        if depth < self.stack.len() {
            Ok(self.stack[self.stack.len() - 1 - depth])
        } else {
            Err(OpError::StackEmpty)
        }
    }

    /// Takes the top `n` operands off the stack, the topmost first.
    pub fn take(&mut self, n: usize) -> (r: Vec<Value>)
        requires
            n <= old(self)@.stack.len(),
        ensures
            r@ == old(self)@.taken(n as int),
            final(self)@ == old(self)@.popped(n as int),
    {
        let mut r: Vec<Value> = Vec::new();
        let mut i: usize = 0;
        assert(self@.stack =~= old(self)@.popped(0).stack);
        while i < n
            invariant
                i <= n <= old(self)@.stack.len(),
                self@ == old(self)@.popped(i as int),
                r@ == old(self)@.taken(i as int),
            decreases n - i,
        {
            let v = self.stack.pop().unwrap();
            r.push(v);
            assert(self@.stack =~= old(self)@.popped(i + 1).stack);
            assert(r@ =~= old(self)@.taken(i + 1));
            i += 1;
        }
        r
    }
}

} // verus!
