use vstd::prelude::*;
use super::literal::LiteralValue;
use crate::callstack::CallStackView;
use crate::datamodel::{
    Buffer, Function, HeapView, List, NativeFn, Real, Tuple, TupleWeak, Value,
    ValueTryIntoError, ValueType,
};

verus! {

/// One instruction. The order of the variants is the order of the opcodes on
/// the wire: `Add` is 0 and `SeqAppend` is 47.
#[derive(Clone, Copy, Debug, PartialEq, Eq, Structural)]
pub enum Op {
    Add,
    Sub,
    Mul,
    Div,
    Rem,
    Neg,
    Shl,
    Shr,
    And,
    Or,
    Xor,
    Not,
    Cmp,
    GetType,
    IntToReal,
    Floor,
    Ceil,
    Trunc,
    Round,
    Call(u8),
    Return,
    Jump(i32),
    JumpZero(i32),
    JumpNeg(i32),
    LiteralCreate(LiteralValue),
    StackCopy,
    StackPop,
    StackLoad(u8),
    StackStore(u8),
    StackSwap(u8),
    TupleCreate(u8),
    TupleFromList,
    TupleWeakRef,
    TupleWeakUpgrade,
    TableCreate,
    ListCreate(u8),
    ListPush,
    ListPop,
    ListGetSlice,
    BufferCreate,
    BufferGetSlice,
    BufferSetSlice,
    SeqLen,
    SeqResize,
    SeqGet,
    SeqSet,
    SeqToList,
    SeqAppend,
}

/// The kind of an instruction, without its payload.
#[derive(Clone, Copy, Debug, PartialEq, Eq, Structural)]
pub enum OpType {
    Add,
    Sub,
    Mul,
    Div,
    Rem,
    Neg,
    Shl,
    Shr,
    And,
    Or,
    Xor,
    Not,
    Cmp,
    GetType,
    IntToReal,
    Floor,
    Ceil,
    Trunc,
    Round,
    Call,
    Return,
    Jump,
    JumpZero,
    JumpNeg,
    LiteralCreate,
    StackCopy,
    StackPop,
    StackLoad,
    StackStore,
    StackSwap,
    TupleCreate,
    TupleFromList,
    TupleWeakRef,
    TupleWeakUpgrade,
    TableCreate,
    ListCreate,
    ListPush,
    ListPop,
    ListGetSlice,
    BufferCreate,
    BufferGetSlice,
    BufferSetSlice,
    SeqLen,
    SeqResize,
    SeqGet,
    SeqSet,
    SeqToList,
    SeqAppend,
}

/// Why an instruction could not be executed.
#[derive(Clone, Copy, Debug, PartialEq, Eq, Structural)]
pub enum OpError {
    /// An operand was needed and the stack held none.
    StackEmpty,
    /// The local slot was never stored to.
    LocalRead(u8),
    /// The sequence has no such place to read.
    IndexRead(i64),
    /// The sequence has no such place to write.
    IndexWrite(i64),
    /// An operand was of one kind where another was needed.
    IntoType(ValueTryIntoError),
    /// The instruction does not handle an operand of this kind.
    BadType(ValueType),
}

/// Arithmetic on reals, which the machine leaves to its host: the host works
/// out the result and puts it on the stack as a real.
#[derive(Clone, Copy, Debug, PartialEq, Eq, Structural)]
pub enum RealRequest {
    Add(Real, Real),
    Sub(Real, Real),
    Mul(Real, Real),
    Div(Real, Real),
    Rem(Real, Real),
    Floor(Real),
    Ceil(Real),
    Trunc(Real),
    Round(Real),
    FromInteger(i64),
}

/// What the machine has to do after an instruction.
#[derive(Debug)]
pub enum OpAction {
    /// Nothing: go on with the next instruction.
    Next,
    /// Go on at the given distance from the jump.
    Jump(i32),
    /// Call the function with the arguments, the last argument first.
    Call(Function, Vec<Value>),
    /// Have the host call its routine with the arguments, the last argument
    /// first, and put the result on the stack.
    CallNative(NativeFn, Vec<Value>),
    /// Leave the function with the value.
    Return(Value),
    /// Have the host do the arithmetic and put the result on the stack.
    Real(RealRequest),
}

/// An [`OpAction`] as contracts see it.
pub enum ActionView {
    Next,
    Jump(i32),
    Call(Function, Seq<Value>),
    CallNative(NativeFn, Seq<Value>),
    Return(Value),
    Real(RealRequest),
}

impl View for OpAction {
    type V = ActionView;

    open spec fn view(&self) -> ActionView {
        match self {
            OpAction::Next => ActionView::Next,
            OpAction::Jump(d) => ActionView::Jump(*d),
            OpAction::Call(f, args) => ActionView::Call(*f, args@),
            OpAction::CallNative(f, args) => ActionView::CallNative(*f, args@),
            OpAction::Return(v) => ActionView::Return(*v),
            OpAction::Real(r) => ActionView::Real(*r),
        }
    }
}

impl OpError {
    pub fn from_mismatch(t: ValueTryIntoError) -> (e: OpError)
        ensures
            e == OpError::IntoType(t),
    {
        OpError::IntoType(t)
    }
}

/// The integer in an operand, or the error of an instruction that needs one.
pub fn need_integer(v: Value) -> (r: Result<i64, OpError>)
    ensures
        r == (match v {
            Value::Integer(i) => Ok::<i64, OpError>(i),
            _ => Err(OpError::IntoType(v.mismatch(ValueType::Integer))),
        }),
{
    match v.try_integer() {
        Ok(i) => Ok(i),
        Err(e) => Err(OpError::IntoType(e)),
    }
}

/// The real in an operand, or the error of an instruction that needs one.
pub fn need_real(v: Value) -> (r: Result<Real, OpError>)
    ensures
        r == (match v {
            Value::Real(x) => Ok::<Real, OpError>(x),
            _ => Err(OpError::IntoType(v.mismatch(ValueType::Real))),
        }),
{
    match v.try_real() {
        Ok(x) => Ok(x),
        Err(e) => Err(OpError::IntoType(e)),
    }
}

/// The tuple in an operand, or the error of an instruction that needs one.
pub fn need_tuple(v: Value) -> (r: Result<Tuple, OpError>)
    ensures
        r == (match v {
            Value::Tuple(x) => Ok::<Tuple, OpError>(x),
            _ => Err(OpError::IntoType(v.mismatch(ValueType::Tuple))),
        }),
{
    match v.try_tuple() {
        Ok(x) => Ok(x),
        Err(e) => Err(OpError::IntoType(e)),
    }
}

/// The weak handle in an operand, or the error of an instruction that needs
/// one.
pub fn need_tuple_weak(v: Value) -> (r: Result<TupleWeak, OpError>)
    ensures
        r == (match v {
            Value::TupleWeak(x) => Ok::<TupleWeak, OpError>(x),
            _ => Err(OpError::IntoType(v.mismatch(ValueType::TupleWeak))),
        }),
{
    match v.try_tuple_weak() {
        Ok(x) => Ok(x),
        Err(e) => Err(OpError::IntoType(e)),
    }
}

/// The list in an operand, or the error of an instruction that needs one.
pub fn need_list(v: Value) -> (r: Result<List, OpError>)
    ensures
        r == (match v {
            Value::List(x) => Ok::<List, OpError>(x),
            _ => Err(OpError::IntoType(v.mismatch(ValueType::List))),
        }),
{
    match v.try_list() {
        Ok(x) => Ok(x),
        Err(e) => Err(OpError::IntoType(e)),
    }
}

/// The buffer in an operand, or the error of an instruction that needs one.
pub fn need_buffer(v: Value) -> (r: Result<Buffer, OpError>)
    ensures
        r == (match v {
            Value::Buffer(x) => Ok::<Buffer, OpError>(x),
            _ => Err(OpError::IntoType(v.mismatch(ValueType::Buffer))),
        }),
{
    match v.try_buffer() {
        Ok(x) => Ok(x),
        Err(e) => Err(OpError::IntoType(e)),
    }
}

/// What an instruction does to the values of a call and to the arena, and
/// what it asks of the machine.
pub struct Effect {
    pub result: Result<ActionView, OpError>,
    pub stack: CallStackView,
    pub heap: HeapView,
}

impl Effect {
    /// The instruction fails and leaves everything as it was.
    pub open spec fn fail(e: OpError, m: CallStackView, heap: HeapView) -> Effect {
        Effect { result: Err(e), stack: m, heap }
    }

    /// The instruction succeeds and asks for nothing.
    pub open spec fn next(m: CallStackView, heap: HeapView) -> Effect {
        Effect { result: Ok(ActionView::Next), stack: m, heap }
    }

    /// The instruction succeeds and asks for `action`.
    pub open spec fn act(action: ActionView, m: CallStackView, heap: HeapView) -> Effect {
        Effect { result: Ok(action), stack: m, heap }
    }
}

/// Whether an outcome is the one that `effect` describes.
pub open spec fn agrees(
    effect: Effect,
    r: Result<OpAction, OpError>,
    m: CallStackView,
    heap: HeapView,
) -> bool {
    &&& m == effect.stack
    &&& heap == effect.heap
    &&& match r {
        Ok(a) => effect.result == Ok::<ActionView, OpError>(a@),
        Err(e) => effect.result == Err::<ActionView, OpError>(e),
    }
}

impl Op {
    /// Whether the instruction is one of the three jumps.
    pub open spec fn is_jump(self) -> bool {
        self is Jump || self is JumpZero || self is JumpNeg
    }

    /// The instruction with its jump distance replaced; other instructions
    /// are left as they are.
    pub open spec fn with_dest(self, dest: i32) -> Op {
        match self {
            Op::Jump(_) => Op::Jump(dest),
            Op::JumpZero(_) => Op::JumpZero(dest),
            Op::JumpNeg(_) => Op::JumpNeg(dest),
            _ => self,
        }
    }

    /// The jump distance of a jump.
    pub open spec fn dest(self) -> i32 {
        match self {
            Op::Jump(d) => d,
            Op::JumpZero(d) => d,
            Op::JumpNeg(d) => d,
            _ => 0i32,
        }
    }

    pub fn test_jump(&self) -> (r: bool)
        ensures
            r == self.is_jump(),
    {
        match self {
            Op::Jump(_) | Op::JumpZero(_) | Op::JumpNeg(_) => true,
            _ => false,
        }
    }

    pub fn set_dest(&self, dest: i32) -> (r: Op)
        ensures
            r == self.with_dest(dest),
    {
        match self {
            Op::Jump(_) => Op::Jump(dest),
            Op::JumpZero(_) => Op::JumpZero(dest),
            Op::JumpNeg(_) => Op::JumpNeg(dest),
            _ => *self,
        }
    }
}

} // verus!
