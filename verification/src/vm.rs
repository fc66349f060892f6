use vstd::prelude::*;
use crate::bytecode::{ActionView, OpAction, OpError, RealRequest};
use crate::callframe::{jumped, CallFrame, FrameView};
use crate::datamodel::{Function, Heap, HeapView, NativeFn, Value};

verus! {

/// The machine: the frame of the call that is running, with the frames of
/// its callers below it.
pub struct VirtualMachine {
    pub frame: Option<Box<CallFrame>>,
}

/// How the machine stands after an instruction.
#[derive(Debug)]
pub enum VmState {
    /// It can go on.
    Running,
    /// The outermost function has returned the value.
    Exited(Value),
    /// The host has to call its routine with the arguments, the last
    /// argument first, and to push the result. Then the machine can go on.
    CallNative(NativeFn, Vec<Value>),
    /// The host has to do the arithmetic and to push the result as a real.
    /// Then the machine can go on.
    Real(RealRequest),
}

/// A [`VmState`] as contracts see it.
pub enum StateView {
    Running,
    Exited(Value),
    CallNative(NativeFn, Seq<Value>),
    Real(RealRequest),
}

impl View for VmState {
    type V = StateView;

    open spec fn view(&self) -> StateView {
        match self {
            VmState::Running => StateView::Running,
            VmState::Exited(v) => StateView::Exited(*v),
            VmState::CallNative(f, args) => StateView::CallNative(*f, args@),
            VmState::Real(r) => StateView::Real(*r),
        }
    }
}

/// The frames of the machine, the outermost first, the running one last.
impl View for VirtualMachine {
    type V = Seq<FrameView>;

    open spec fn view(&self) -> Seq<FrameView> {
        match self.frame {
            Some(f) => f.callers().push(f@),
            None => Seq::empty(),
        }
    }
}

/// The machine after it has done what an instruction asked for.
pub struct Processed {
    pub state: StateView,
    pub frames: Seq<FrameView>,
    pub heap: HeapView,
}

/// The frame with the operands pushed one after the other.
pub open spec fn pushed_all(frame: FrameView, vals: Seq<Value>) -> FrameView
    decreases vals.len(),
{
    if vals.len() == 0 {
        frame
    } else {
        pushed_all(frame, vals.drop_last()).pushed(vals.last())
    }
}

/// The frames with another running frame.
pub open spec fn with_top(frames: Seq<FrameView>, top: FrameView) -> Seq<FrameView> {
    frames.update(frames.len() - 1, top)
}

/// What the machine does for an action.
///
/// * `Jump`: the running frame goes on at the distance from the jump.
/// * `Call`: a new frame runs the function. The arguments are pushed in the
///   order in which they come, which is the last argument first, so the
///   function takes its first argument off the stack first.
/// * `CallNative` and `Real`: the machine waits for the host.
/// * `Return`: the running frame goes, and the handles that it held are given
///   up. The value goes on the stack of the caller; if there is no caller,
///   the machine has finished with the value.
pub open spec fn processed(frames: Seq<FrameView>, heap: HeapView, action: ActionView) -> Processed {
    let top = frames.last();
    match action {
        ActionView::Next => Processed { state: StateView::Running, frames, heap },
        ActionView::Jump(dest) => Processed {
            state: StateView::Running,
            frames: with_top(frames, FrameView { cursor: jumped(top.cursor, dest), ..top }),
            heap,
        },
        ActionView::Call(func, args) => Processed {
            state: StateView::Running,
            frames: frames.push(pushed_all(FrameView::start(func, heap), args)),
            heap: match heap.function(func) {
                Some(f) => heap.retained(Value::Tuple(f.0)),
                None => heap,
            },
        },
        ActionView::CallNative(func, args) => Processed {
            state: StateView::CallNative(func, args),
            frames,
            heap,
        },
        ActionView::Real(request) => Processed { state: StateView::Real(request), frames, heap },
        ActionView::Return(val) => if frames.len() > 1 {
            let below = frames.drop_last();
            Processed {
                state: StateView::Running,
                frames: with_top(below, below.last().pushed(val)),
                heap: heap.released_all(top.held()),
            }
        } else {
            Processed {
                state: StateView::Exited(val),
                frames: Seq::empty(),
                heap: heap.released_all(top.held()),
            }
        },
    }
}

/// The machine after it has run.
pub struct Ran {
    pub result: Result<StateView, OpError>,
    pub frames: Seq<FrameView>,
    pub heap: HeapView,
}

/// The machine after at most `fuel` instructions: it stops where the
/// outermost function returns, where an instruction fails, where the host is
/// needed, and where the fuel is used up, in which case it is still running.
pub open spec fn ran(frames: Seq<FrameView>, heap: HeapView, fuel: nat) -> Ran
    decreases fuel,
{
    if fuel == 0 {
        Ran { result: Ok(StateView::Running), frames, heap }
    } else {
        let step = frames.last().step(heap);
        let frames = with_top(frames, step.frame);
        match step.result {
            Err(e) => Ran { result: Err(e), frames, heap: step.heap },
            Ok(action) => {
                let p = processed(frames, step.heap, action);
                match p.state {
                    StateView::Running => ran(p.frames, p.heap, (fuel - 1) as nat),
                    state => Ran { result: Ok(state), frames: p.frames, heap: p.heap },
                }
            },
        }
    }
}

impl VirtualMachine {
    /// Makes a machine that is about to run the function. The machine takes
    /// over the handle to the function.
    pub fn new(func: Function, heap: &mut Heap) -> (vm: VirtualMachine)
        requires
            old(heap).wf(),
        ensures
            vm@ == seq![FrameView::start(func, old(heap)@)],
            final(heap)@ == (match old(heap)@.function(func) {
                Some(f) => old(heap)@.retained(Value::Tuple(f.0)),
                None => old(heap)@,
            }),
            final(heap).wf(),
    {
        let frame = CallFrame::new(func, heap);
        let vm = VirtualMachine { frame: Some(Box::new(frame)) };
        assert(vm@ =~= seq![FrameView::start(func, old(heap)@)]);
        vm
    }

    /// Whether a frame is left to run.
    pub fn is_running(&self) -> (r: bool)
        ensures
            r == (self@.len() > 0),
    {
        self.frame.is_some()
    }

    /// Puts an operand on the stack of the running frame: an argument before
    /// the start, or the result that the host was asked for.
    pub fn push(&mut self, val: Value)
        requires
            old(self)@.len() > 0,
        ensures
            final(self)@ == with_top(old(self)@, old(self)@.last().pushed(val)),
    {
        match &mut self.frame {
            Some(frame) => {
                frame.push(val);
            },
            None => {},
        }
        assert(self@ =~= with_top(old(self)@, old(self)@.last().pushed(val)));
    }

    /// Runs until the outermost function returns, an instruction fails, the
    /// host is needed, or `fuel` instructions are done.
    pub fn run_until_exited(&mut self, heap: &mut Heap, fuel: u64) -> (r: Result<VmState, OpError>)
        requires
            old(self)@.len() > 0,
            old(heap).wf(),
        ensures
            final(self)@ == ran(old(self)@, old(heap)@, fuel as nat).frames,
            final(heap)@ == ran(old(self)@, old(heap)@, fuel as nat).heap,
            match r {
                Ok(s) => ran(old(self)@, old(heap)@, fuel as nat).result == Ok::<
                    StateView,
                    OpError,
                >(s@),
                Err(e) => ran(old(self)@, old(heap)@, fuel as nat).result == Err::<
                    StateView,
                    OpError,
                >(e),
            },
            final(heap).wf(),
    {
        let mut left = fuel;
        while left > 0
            invariant
                self@.len() > 0,
                heap.wf(),
                ran(self@, heap@, left as nat) == ran(old(self)@, old(heap)@, fuel as nat),
            decreases left,
        {
            let action = self.step(heap)?;
            match self.process(heap, action)? {
                VmState::Running => {},
                state => {
                    return Ok(state);
                },
            }
            left -= 1;
        }
        Ok(VmState::Running)
    }

    /// Executes one instruction of the running frame.
    pub fn step(&mut self, heap: &mut Heap) -> (r: Result<OpAction, OpError>)
        requires
            old(self)@.len() > 0,
            old(heap).wf(),
        ensures
            final(self)@ == with_top(old(self)@, old(self)@.last().step(old(heap)@).frame),
            final(heap)@ == old(self)@.last().step(old(heap)@).heap,
            match r {
                Ok(a) => old(self)@.last().step(old(heap)@).result == Ok::<ActionView, OpError>(
                    a@,
                ),
                Err(e) => old(self)@.last().step(old(heap)@).result == Err::<
                    ActionView,
                    OpError,
                >(e),
            },
            final(heap).wf(),
    {
        let r = match &mut self.frame {
            Some(frame) => frame.exec(heap),
            None => Ok(OpAction::Next),
        };
        assert(self@ =~= with_top(old(self)@, old(self)@.last().step(old(heap)@).frame));
        r
    }

    /// Does what an instruction asked for.
#[verifier::rlimit(50)]
    pub fn process(&mut self, heap: &mut Heap, action: OpAction) -> (r: Result<VmState, OpError>)
        requires
            old(self)@.len() > 0,
            old(heap).wf(),
        ensures
            r matches Ok(s) && s@ == processed(old(self)@, old(heap)@, action@).state,
            final(self)@ == processed(old(self)@, old(heap)@, action@).frames,
            final(heap)@ == processed(old(self)@, old(heap)@, action@).heap,
            r matches Ok(s) && s@ is Running ==> final(self)@.len() > 0,
            final(heap).wf(),
    {
        match action {
            OpAction::Next => {},
            OpAction::Jump(dest) => {
                match &mut self.frame {
                    Some(frame) => {
                        frame.jump(dest);
                    },
                    None => {},
                }
                assert(self@ =~= processed(old(self)@, old(heap)@, action@).frames);
            },
            OpAction::Call(func, args) => {
                let mut callee = Box::new(CallFrame::new(func, heap));
                let mut i: usize = 0;
                assert(args@.subrange(0, 0) =~= Seq::<Value>::empty());
                while i < args.len()
                    invariant
                        i <= args.len(),
                        callee.parent is None,
                        callee@ == pushed_all(
                            FrameView::start(func, old(heap)@),
                            args@.subrange(0, i as int),
                        ),
                    decreases args.len() - i,
                {
                    callee.push(args[i]);
                    proof {
                        let sub = args@.subrange(0, i + 1);
                        assert(sub.drop_last() =~= args@.subrange(0, i as int));
                        assert(sub.last() == args@[i as int]);
                    }
                    i += 1;
                }
                assert(args@.subrange(0, args@.len() as int) =~= args@);
                std::mem::swap(&mut self.frame, &mut callee.parent);
                self.frame = Some(callee);
                assert(self@ =~= processed(old(self)@, old(heap)@, action@).frames);
            },
            OpAction::CallNative(func, args) => {
                return Ok(VmState::CallNative(func, args));
            },
            OpAction::Real(request) => {
                return Ok(VmState::Real(request));
            },
            OpAction::Return(val) => {
                let mut done: Option<Box<CallFrame>> = None;
                std::mem::swap(&mut self.frame, &mut done);
                let done = match done {
                    Some(frame) => frame,
                    None => {
                        return Ok(VmState::Running);
                    },
                };
                let ghost frames = old(self)@;
                assert(frames == done.callers().push(done@));
                let CallFrame { parent, function, cursor, stack } = *done;
                let mut held: Vec<Value> = Vec::new();
                held.push(Value::Function(function));
                let mut operands = stack.stack;
                let mut locals = stack.locals;
                held.append(&mut operands);
                held.append(&mut locals);
                assert(held@ =~= old(self)@.last().held());
                heap.release_all(held);
                match parent {
                    Some(mut parent) => {
                        let ghost below = frames.drop_last();
                        assert(below =~= parent.callers().push(parent@));
                        parent.push(val);
                        self.frame = Some(parent);
                        assert(self@ =~= with_top(below, below.last().pushed(val)));
                        assert(self@ =~= processed(old(self)@, old(heap)@, action@).frames);
                    },
                    None => {
                        self.frame = None;
                        assert(self@ =~= processed(old(self)@, old(heap)@, action@).frames);
                        return Ok(VmState::Exited(val));
                    },
                }
            },
        }
        Ok(VmState::Running)
    }
}

} // verus!
