use vstd::prelude::*;
use crate::bytecode::{ActionView, OpAction, OpError, Operation};
use crate::callstack::{CallStack, CallStackView};
use crate::datamodel::{Function, Heap, HeapView, Value};

verus! {

/// One call of a function: the function, the place in its instructions, and
/// the values of the call. The frame of the caller hangs below it.
pub struct CallFrame {
    pub parent: Option<Box<CallFrame>>,
    pub function: Function,
    pub cursor: usize,
    pub stack: CallStack,
}

/// A [`CallFrame`] without its callers.
pub struct FrameView {
    pub function: Function,
    pub cursor: usize,
    pub stack: CallStackView,
}

/// What one step of a frame gives: what is asked of the machine, the frame
/// and the arena.
pub struct Step {
    pub result: Result<ActionView, OpError>,
    pub frame: FrameView,
    pub heap: HeapView,
}

/// The place at which a frame goes on after a jump: the jump distance counts
/// from the jump itself, and the cursor is already one past the jump. A place
/// that is no machine number counts as a place behind every instruction.
pub open spec fn jumped(cursor: usize, index: i32) -> usize {
    if 0 <= cursor + index - 1 <= usize::MAX {
        (cursor + index - 1) as usize
    } else {
        usize::MAX
    }
}

impl FrameView {
    /// The first state of a call: slot 0 holds the module of the function,
    /// or nothing where the handle leads to no function.
    pub open spec fn start(function: Function, heap: HeapView) -> FrameView {
        FrameView {
            function,
            cursor: 0,
            stack: CallStackView {
                stack: Seq::empty(),
                locals: seq![
                    match heap.function(function) {
                        Some(f) => Value::Tuple(f.0),
                        None => Value::Nil,
                    },
                ],
            },
        }
    }

    /// The frame with one more operand.
    pub open spec fn pushed(self, val: Value) -> FrameView {
        FrameView { stack: self.stack.pushed(val), ..self }
    }

    /// The instruction at the cursor, if the cursor is within the function.
    pub open spec fn current(self, heap: HeapView) -> Option<crate::bytecode::Op> {
        match heap.function(self.function) {
            Some(f) if self.cursor < f.1.len() => Some(f.1[self.cursor as int]),
            _ => None,
        }
    }

    /// One step: the instruction at the cursor is executed and the cursor
    /// moves on. Where the instruction fails, nothing changes. Behind the
    /// last instruction the function returns nothing.
    pub open spec fn step(self, heap: HeapView) -> Step {
        match self.current(heap) {
            Some(op) => {
                let e = op.effect(self.stack, heap);
                Step {
                    result: e.result,
                    frame: if e.result is Ok {
                        FrameView { cursor: (self.cursor + 1) as usize, stack: e.stack, ..self }
                    } else {
                        self
                    },
                    heap: e.heap,
                }
            },
            None => Step { result: Ok(ActionView::Return(Value::Nil)), frame: self, heap },
        }
    }

    /// The handles that the frame holds: to its function, in its operands
    /// and in its local slots.
    pub open spec fn held(self) -> Seq<Value> {
        seq![Value::Function(self.function)] + self.stack.stack + self.stack.locals
    }
}

impl View for CallFrame {
    type V = FrameView;

    open spec fn view(&self) -> FrameView {
        FrameView { function: self.function, cursor: self.cursor, stack: self.stack@ }
    }
}

impl CallFrame {
    /// The frames of the callers, the outermost first.
    pub open spec fn callers(&self) -> Seq<FrameView>
        decreases self,
    {
        match self.parent {
            Some(p) => p.callers().push(p@),
            None => Seq::empty(),
        }
    }

    /// Makes the frame of a call. The frame takes over the handle to the
    /// function, and holds a handle of its own to the function's module in
    /// local slot 0.
    pub fn new(function: Function, heap: &mut Heap) -> (frame: CallFrame)
        requires
            old(heap).wf(),
        ensures
            frame@ == FrameView::start(function, old(heap)@),
            frame.parent is None,
            final(heap)@ == (match old(heap)@.function(function) {
                Some(f) => old(heap)@.retained(Value::Tuple(f.0)),
                None => old(heap)@,
            }),
            final(heap).wf(),
    {
        let mut stack = CallStack::new();
        let module = match function.module(heap) {
            Some(module) => {
                heap.retain(&Value::Tuple(module));
                Value::Tuple(module)
            },
            None => Value::Nil,
        };
        stack.store(0, module);
        assert(stack@.locals =~= seq![module]);
        CallFrame { parent: None, function, cursor: 0, stack }
    }

    /// Puts an operand on the stack of the call.
    pub fn push(&mut self, val: Value)
        ensures
            final(self)@ == old(self)@.pushed(val),
            final(self).parent == old(self).parent,
    {
        self.stack.push(val);
    }

    /// Moves the cursor by a jump distance.
    pub fn jump(&mut self, index: i32)
        ensures
            final(self)@ == (FrameView { cursor: jumped(old(self).cursor, index), ..old(self)@ }),
            final(self).parent == old(self).parent,
    {
        self.cursor = target_of(self.cursor, index);
    }

    /// Executes the instruction at the cursor.
    pub fn exec(&mut self, heap: &mut Heap) -> (r: Result<OpAction, OpError>)
        requires
            old(heap).wf(),
        ensures
            final(self)@ == old(self)@.step(old(heap)@).frame,
            final(heap)@ == old(self)@.step(old(heap)@).heap,
            match r {
                Ok(a) => old(self)@.step(old(heap)@).result == Ok::<ActionView, OpError>(a@),
                Err(e) => old(self)@.step(old(heap)@).result == Err::<ActionView, OpError>(e),
            },
            final(self).parent == old(self).parent,
            final(heap).wf(),
    {
        let op = match self.function.op_at(heap, self.cursor) {
            Some(op) => op,
            None => {
                return Ok(OpAction::Return(Value::Nil));
            },
        };
        let r = op.exec(&mut self.stack, heap);
        if r.is_ok() {
            self.cursor += 1;
        }
        r
    }
}

fn target_of(cursor: usize, index: i32) -> (r: usize)
    ensures
        r == jumped(cursor, index),
{
    if index >= 1 {
        let forward = (index - 1) as usize;
        if cursor <= usize::MAX - forward {
            cursor + forward
        } else {
            usize::MAX
        }
    } else {
        let back: u64 = (1 - index as i64) as u64;
        if back > usize::MAX as u64 {
            usize::MAX
        } else if cursor >= back as usize {
            cursor - back as usize
        } else {
            usize::MAX
        }
    }
}

} // verus!
