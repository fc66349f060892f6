use vstd::prelude::*;
use super::op::{agrees, Effect, Op, OpAction, OpError, OpType};
use super::ops::bits::{effect_not, exec_not, Bitwise};
use super::ops::buffer::{
    effect_buffer_create, effect_buffer_get_slice, effect_buffer_set_slice, exec_buffer_create,
    exec_buffer_get_slice, exec_buffer_set_slice,
};
use super::ops::compare::{effect_compare, effect_get_type, exec_compare, exec_get_type};
use super::ops::jump::{effect_jump, effect_jump_if, exec_jump, exec_jump_if};
use super::ops::list::{
    effect_list_create, effect_list_get_slice, effect_list_pop, effect_list_push,
    exec_list_create, exec_list_get_slice, exec_list_pop, exec_list_push,
};
use super::ops::num::{effect_neg, exec_neg, Arith};
use super::ops::reals::{effect_int_to_real, exec_int_to_real, Rounding};
use super::ops::seq::{
    effect_seq_append, effect_seq_get, effect_seq_len, effect_seq_resize, effect_seq_set,
    effect_seq_to_list, exec_seq_append, exec_seq_get, exec_seq_len, exec_seq_resize,
    exec_seq_set, exec_seq_to_list,
};
use super::ops::stack::{
    effect_call, effect_copy, effect_literal, effect_load, effect_pop, effect_return,
    effect_store, effect_swap, exec_call, exec_copy, exec_literal, exec_load, exec_pop,
    exec_return, exec_store, exec_swap,
};
use super::ops::table::{effect_table_create, exec_table_create};
use super::ops::tuple::{
    effect_tuple_create, effect_tuple_from_list, effect_tuple_weak_ref,
    effect_tuple_weak_upgrade, exec_tuple_create, exec_tuple_from_list, exec_tuple_weak_ref,
    exec_tuple_weak_upgrade,
};
use crate::callstack::{CallStack, CallStackView};
use crate::datamodel::{Heap, HeapView};

verus! {

/// Something that can be executed on the values of a call.
pub trait Operation {
    /// What executing it does.
    spec fn effect(&self, m: CallStackView, heap: HeapView) -> Effect;

    /// Executes it. Where it fails, the stack, the local slots and the arena
    /// are left as they were.
    fn exec(&self, m: &mut CallStack, heap: &mut Heap) -> (r: Result<OpAction, OpError>)
        requires
            old(heap).wf(),
        ensures
            agrees(self.effect(old(m)@, old(heap)@), r, final(m)@, final(heap)@),
            final(heap).wf(),
    ;
}

impl Operation for Op {
    open spec fn effect(&self, m: CallStackView, heap: HeapView) -> Effect {
        match *self {
            Op::Add => Arith::Add.effect(m, heap),
            Op::Sub => Arith::Sub.effect(m, heap),
            Op::Mul => Arith::Mul.effect(m, heap),
            Op::Div => Arith::Div.effect(m, heap),
            Op::Rem => Arith::Rem.effect(m, heap),
            Op::Neg => effect_neg(m, heap),
            Op::Shl => Bitwise::Shl.effect(m, heap),
            Op::Shr => Bitwise::Shr.effect(m, heap),
            Op::And => Bitwise::And.effect(m, heap),
            Op::Or => Bitwise::Or.effect(m, heap),
            Op::Xor => Bitwise::Xor.effect(m, heap),
            Op::Not => effect_not(m, heap),
            Op::Cmp => effect_compare(m, heap),
            Op::GetType => effect_get_type(m, heap),
            Op::IntToReal => effect_int_to_real(m, heap),
            Op::Floor => Rounding::Floor.effect(m, heap),
            Op::Ceil => Rounding::Ceil.effect(m, heap),
            Op::Trunc => Rounding::Trunc.effect(m, heap),
            Op::Round => Rounding::Round.effect(m, heap),
            Op::Call(args) => effect_call(args, m, heap),
            Op::Return => effect_return(m, heap),
            Op::Jump(dest) => effect_jump(dest, m, heap),
            Op::JumpZero(dest) => effect_jump_if(true, dest, m, heap),
            Op::JumpNeg(dest) => effect_jump_if(false, dest, m, heap),
            Op::LiteralCreate(val) => effect_literal(val, m, heap),
            Op::StackCopy => effect_copy(m, heap),
            Op::StackPop => effect_pop(m, heap),
            Op::StackLoad(local) => effect_load(local, m, heap),
            Op::StackStore(local) => effect_store(local, m, heap),
            Op::StackSwap(local) => effect_swap(local, m, heap),
            Op::TupleCreate(items) => effect_tuple_create(items, m, heap),
            Op::TupleFromList => effect_tuple_from_list(m, heap),
            Op::TupleWeakRef => effect_tuple_weak_ref(m, heap),
            Op::TupleWeakUpgrade => effect_tuple_weak_upgrade(m, heap),
            Op::TableCreate => effect_table_create(m, heap),
            Op::ListCreate(items) => effect_list_create(items, m, heap),
            Op::ListPush => effect_list_push(m, heap),
            Op::ListPop => effect_list_pop(m, heap),
            Op::ListGetSlice => effect_list_get_slice(m, heap),
            Op::BufferCreate => effect_buffer_create(m, heap),
            Op::BufferGetSlice => effect_buffer_get_slice(m, heap),
            Op::BufferSetSlice => effect_buffer_set_slice(m, heap),
            Op::SeqLen => effect_seq_len(m, heap),
            Op::SeqResize => effect_seq_resize(m, heap),
            Op::SeqGet => effect_seq_get(m, heap),
            Op::SeqSet => effect_seq_set(m, heap),
            Op::SeqToList => effect_seq_to_list(m, heap),
            Op::SeqAppend => effect_seq_append(m, heap),
        }
    }

    fn exec(&self, m: &mut CallStack, heap: &mut Heap) -> (r: Result<OpAction, OpError>) {
        match *self {
            Op::Add => Arith::Add.exec(m),
            Op::Sub => Arith::Sub.exec(m),
            Op::Mul => Arith::Mul.exec(m),
            Op::Div => Arith::Div.exec(m),
            Op::Rem => Arith::Rem.exec(m),
            Op::Neg => exec_neg(m),
            Op::Shl => Bitwise::Shl.exec(m),
            Op::Shr => Bitwise::Shr.exec(m),
            Op::And => Bitwise::And.exec(m),
            Op::Or => Bitwise::Or.exec(m),
            Op::Xor => Bitwise::Xor.exec(m),
            Op::Not => exec_not(m),
            Op::Cmp => exec_compare(m, heap),
            Op::GetType => exec_get_type(m, heap),
            Op::IntToReal => exec_int_to_real(m),
            Op::Floor => Rounding::Floor.exec(m),
            Op::Ceil => Rounding::Ceil.exec(m),
            Op::Trunc => Rounding::Trunc.exec(m),
            Op::Round => Rounding::Round.exec(m),
            Op::Call(args) => exec_call(args, m),
            Op::Return => exec_return(m),
            Op::Jump(dest) => exec_jump(dest, m),
            Op::JumpZero(dest) => exec_jump_if(true, dest, m, heap),
            Op::JumpNeg(dest) => exec_jump_if(false, dest, m, heap),
            Op::LiteralCreate(val) => exec_literal(val, m),
            Op::StackCopy => exec_copy(m, heap),
            Op::StackPop => exec_pop(m, heap),
            Op::StackLoad(local) => exec_load(local, m, heap),
            Op::StackStore(local) => exec_store(local, m, heap),
            Op::StackSwap(local) => exec_swap(local, m),
            Op::TupleCreate(items) => exec_tuple_create(items, m, heap),
            Op::TupleFromList => exec_tuple_from_list(m, heap),
            Op::TupleWeakRef => exec_tuple_weak_ref(m, heap),
            Op::TupleWeakUpgrade => exec_tuple_weak_upgrade(m, heap),
            Op::TableCreate => exec_table_create(m, heap),
            Op::ListCreate(items) => exec_list_create(items, m, heap),
            Op::ListPush => exec_list_push(m, heap),
            Op::ListPop => exec_list_pop(m, heap),
            Op::ListGetSlice => exec_list_get_slice(m, heap),
            Op::BufferCreate => exec_buffer_create(m, heap),
            Op::BufferGetSlice => exec_buffer_get_slice(m, heap),
            Op::BufferSetSlice => exec_buffer_set_slice(m, heap),
            Op::SeqLen => exec_seq_len(m, heap),
            Op::SeqResize => exec_seq_resize(m, heap),
            Op::SeqGet => exec_seq_get(m, heap),
            Op::SeqSet => exec_seq_set(m, heap),
            Op::SeqToList => exec_seq_to_list(m, heap),
            Op::SeqAppend => exec_seq_append(m, heap),
        }
    }
}

impl Op {
    /// The kind of the instruction.
    pub open spec fn kind(self) -> OpType {
        match self {
            Op::Add => OpType::Add,
            Op::Sub => OpType::Sub,
            Op::Mul => OpType::Mul,
            Op::Div => OpType::Div,
            Op::Rem => OpType::Rem,
            Op::Neg => OpType::Neg,
            Op::Shl => OpType::Shl,
            Op::Shr => OpType::Shr,
            Op::And => OpType::And,
            Op::Or => OpType::Or,
            Op::Xor => OpType::Xor,
            Op::Not => OpType::Not,
            Op::Cmp => OpType::Cmp,
            Op::GetType => OpType::GetType,
            Op::IntToReal => OpType::IntToReal,
            Op::Floor => OpType::Floor,
            Op::Ceil => OpType::Ceil,
            Op::Trunc => OpType::Trunc,
            Op::Round => OpType::Round,
            Op::Call(_) => OpType::Call,
            Op::Return => OpType::Return,
            Op::Jump(_) => OpType::Jump,
            Op::JumpZero(_) => OpType::JumpZero,
            Op::JumpNeg(_) => OpType::JumpNeg,
            Op::LiteralCreate(_) => OpType::LiteralCreate,
            Op::StackCopy => OpType::StackCopy,
            Op::StackPop => OpType::StackPop,
            Op::StackLoad(_) => OpType::StackLoad,
            Op::StackStore(_) => OpType::StackStore,
            Op::StackSwap(_) => OpType::StackSwap,
            Op::TupleCreate(_) => OpType::TupleCreate,
            Op::TupleFromList => OpType::TupleFromList,
            Op::TupleWeakRef => OpType::TupleWeakRef,
            Op::TupleWeakUpgrade => OpType::TupleWeakUpgrade,
            Op::TableCreate => OpType::TableCreate,
            Op::ListCreate(_) => OpType::ListCreate,
            Op::ListPush => OpType::ListPush,
            Op::ListPop => OpType::ListPop,
            Op::ListGetSlice => OpType::ListGetSlice,
            Op::BufferCreate => OpType::BufferCreate,
            Op::BufferGetSlice => OpType::BufferGetSlice,
            Op::BufferSetSlice => OpType::BufferSetSlice,
            Op::SeqLen => OpType::SeqLen,
            Op::SeqResize => OpType::SeqResize,
            Op::SeqGet => OpType::SeqGet,
            Op::SeqSet => OpType::SeqSet,
            Op::SeqToList => OpType::SeqToList,
            Op::SeqAppend => OpType::SeqAppend,
        }
    }

    pub fn get_type(&self) -> (t: OpType)
        ensures
            t == self.kind(),
    {
        match self {
            Op::Add => OpType::Add,
            Op::Sub => OpType::Sub,
            Op::Mul => OpType::Mul,
            Op::Div => OpType::Div,
            Op::Rem => OpType::Rem,
            Op::Neg => OpType::Neg,
            Op::Shl => OpType::Shl,
            Op::Shr => OpType::Shr,
            Op::And => OpType::And,
            Op::Or => OpType::Or,
            Op::Xor => OpType::Xor,
            Op::Not => OpType::Not,
            Op::Cmp => OpType::Cmp,
            Op::GetType => OpType::GetType,
            Op::IntToReal => OpType::IntToReal,
            Op::Floor => OpType::Floor,
            Op::Ceil => OpType::Ceil,
            Op::Trunc => OpType::Trunc,
            Op::Round => OpType::Round,
            Op::Call(_) => OpType::Call,
            Op::Return => OpType::Return,
            Op::Jump(_) => OpType::Jump,
            Op::JumpZero(_) => OpType::JumpZero,
            Op::JumpNeg(_) => OpType::JumpNeg,
            Op::LiteralCreate(_) => OpType::LiteralCreate,
            Op::StackCopy => OpType::StackCopy,
            Op::StackPop => OpType::StackPop,
            Op::StackLoad(_) => OpType::StackLoad,
            Op::StackStore(_) => OpType::StackStore,
            Op::StackSwap(_) => OpType::StackSwap,
            Op::TupleCreate(_) => OpType::TupleCreate,
            Op::TupleFromList => OpType::TupleFromList,
            Op::TupleWeakRef => OpType::TupleWeakRef,
            Op::TupleWeakUpgrade => OpType::TupleWeakUpgrade,
            Op::TableCreate => OpType::TableCreate,
            Op::ListCreate(_) => OpType::ListCreate,
            Op::ListPush => OpType::ListPush,
            Op::ListPop => OpType::ListPop,
            Op::ListGetSlice => OpType::ListGetSlice,
            Op::BufferCreate => OpType::BufferCreate,
            Op::BufferGetSlice => OpType::BufferGetSlice,
            Op::BufferSetSlice => OpType::BufferSetSlice,
            Op::SeqLen => OpType::SeqLen,
            Op::SeqResize => OpType::SeqResize,
            Op::SeqGet => OpType::SeqGet,
            Op::SeqSet => OpType::SeqSet,
            Op::SeqToList => OpType::SeqToList,
            Op::SeqAppend => OpType::SeqAppend,
        }
    }
}

impl OpType {
    /// The number of the instruction on the wire: its place in the order of
    /// declaration.
    pub open spec fn code(self) -> u8 {
        match self {
            OpType::Add => 0,
            OpType::Sub => 1,
            OpType::Mul => 2,
            OpType::Div => 3,
            OpType::Rem => 4,
            OpType::Neg => 5,
            OpType::Shl => 6,
            OpType::Shr => 7,
            OpType::And => 8,
            OpType::Or => 9,
            OpType::Xor => 10,
            OpType::Not => 11,
            OpType::Cmp => 12,
            OpType::GetType => 13,
            OpType::IntToReal => 14,
            OpType::Floor => 15,
            OpType::Ceil => 16,
            OpType::Trunc => 17,
            OpType::Round => 18,
            OpType::Call => 19,
            OpType::Return => 20,
            OpType::Jump => 21,
            OpType::JumpZero => 22,
            OpType::JumpNeg => 23,
            OpType::LiteralCreate => 24,
            OpType::StackCopy => 25,
            OpType::StackPop => 26,
            OpType::StackLoad => 27,
            OpType::StackStore => 28,
            OpType::StackSwap => 29,
            OpType::TupleCreate => 30,
            OpType::TupleFromList => 31,
            OpType::TupleWeakRef => 32,
            OpType::TupleWeakUpgrade => 33,
            OpType::TableCreate => 34,
            OpType::ListCreate => 35,
            OpType::ListPush => 36,
            OpType::ListPop => 37,
            OpType::ListGetSlice => 38,
            OpType::BufferCreate => 39,
            OpType::BufferGetSlice => 40,
            OpType::BufferSetSlice => 41,
            OpType::SeqLen => 42,
            OpType::SeqResize => 43,
            OpType::SeqGet => 44,
            OpType::SeqSet => 45,
            OpType::SeqToList => 46,
            OpType::SeqAppend => 47,
        }
    }

    pub fn get_code(&self) -> (c: u8)
        ensures
            c == self.code(),
    {
        match self {
            OpType::Add => 0,
            OpType::Sub => 1,
            OpType::Mul => 2,
            OpType::Div => 3,
            OpType::Rem => 4,
            OpType::Neg => 5,
            OpType::Shl => 6,
            OpType::Shr => 7,
            OpType::And => 8,
            OpType::Or => 9,
            OpType::Xor => 10,
            OpType::Not => 11,
            OpType::Cmp => 12,
            OpType::GetType => 13,
            OpType::IntToReal => 14,
            OpType::Floor => 15,
            OpType::Ceil => 16,
            OpType::Trunc => 17,
            OpType::Round => 18,
            OpType::Call => 19,
            OpType::Return => 20,
            OpType::Jump => 21,
            OpType::JumpZero => 22,
            OpType::JumpNeg => 23,
            OpType::LiteralCreate => 24,
            OpType::StackCopy => 25,
            OpType::StackPop => 26,
            OpType::StackLoad => 27,
            OpType::StackStore => 28,
            OpType::StackSwap => 29,
            OpType::TupleCreate => 30,
            OpType::TupleFromList => 31,
            OpType::TupleWeakRef => 32,
            OpType::TupleWeakUpgrade => 33,
            OpType::TableCreate => 34,
            OpType::ListCreate => 35,
            OpType::ListPush => 36,
            OpType::ListPop => 37,
            OpType::ListGetSlice => 38,
            OpType::BufferCreate => 39,
            OpType::BufferGetSlice => 40,
            OpType::BufferSetSlice => 41,
            OpType::SeqLen => 42,
            OpType::SeqResize => 43,
            OpType::SeqGet => 44,
            OpType::SeqSet => 45,
            OpType::SeqToList => 46,
            OpType::SeqAppend => 47,
        }
    }

    /// The name of the instruction.
    pub open spec fn name(self) -> Seq<char> {
        match self {
            OpType::Add => "Add"@,
            OpType::Sub => "Sub"@,
            OpType::Mul => "Mul"@,
            OpType::Div => "Div"@,
            OpType::Rem => "Rem"@,
            OpType::Neg => "Neg"@,
            OpType::Shl => "Shl"@,
            OpType::Shr => "Shr"@,
            OpType::And => "And"@,
            OpType::Or => "Or"@,
            OpType::Xor => "Xor"@,
            OpType::Not => "Not"@,
            OpType::Cmp => "Cmp"@,
            OpType::GetType => "GetType"@,
            OpType::IntToReal => "IntToReal"@,
            OpType::Floor => "Floor"@,
            OpType::Ceil => "Ceil"@,
            OpType::Trunc => "Trunc"@,
            OpType::Round => "Round"@,
            OpType::Call => "Call"@,
            OpType::Return => "Return"@,
            OpType::Jump => "Jump"@,
            OpType::JumpZero => "JumpZero"@,
            OpType::JumpNeg => "JumpNeg"@,
            OpType::LiteralCreate => "LiteralCreate"@,
            OpType::StackCopy => "StackCopy"@,
            OpType::StackPop => "StackPop"@,
            OpType::StackLoad => "StackLoad"@,
            OpType::StackStore => "StackStore"@,
            OpType::StackSwap => "StackSwap"@,
            OpType::TupleCreate => "TupleCreate"@,
            OpType::TupleFromList => "TupleFromList"@,
            OpType::TupleWeakRef => "TupleWeakRef"@,
            OpType::TupleWeakUpgrade => "TupleWeakUpgrade"@,
            OpType::TableCreate => "TableCreate"@,
            OpType::ListCreate => "ListCreate"@,
            OpType::ListPush => "ListPush"@,
            OpType::ListPop => "ListPop"@,
            OpType::ListGetSlice => "ListGetSlice"@,
            OpType::BufferCreate => "BufferCreate"@,
            OpType::BufferGetSlice => "BufferGetSlice"@,
            OpType::BufferSetSlice => "BufferSetSlice"@,
            OpType::SeqLen => "SeqLen"@,
            OpType::SeqResize => "SeqResize"@,
            OpType::SeqGet => "SeqGet"@,
            OpType::SeqSet => "SeqSet"@,
            OpType::SeqToList => "SeqToList"@,
            OpType::SeqAppend => "SeqAppend"@,
        }
    }

    pub fn get_name(&self) -> (name: &'static str)
        ensures
            name@ == self.name(),
    {
        match self {
            OpType::Add => "Add",
            OpType::Sub => "Sub",
            OpType::Mul => "Mul",
            OpType::Div => "Div",
            OpType::Rem => "Rem",
            OpType::Neg => "Neg",
            OpType::Shl => "Shl",
            OpType::Shr => "Shr",
            OpType::And => "And",
            OpType::Or => "Or",
            OpType::Xor => "Xor",
            OpType::Not => "Not",
            OpType::Cmp => "Cmp",
            OpType::GetType => "GetType",
            OpType::IntToReal => "IntToReal",
            OpType::Floor => "Floor",
            OpType::Ceil => "Ceil",
            OpType::Trunc => "Trunc",
            OpType::Round => "Round",
            OpType::Call => "Call",
            OpType::Return => "Return",
            OpType::Jump => "Jump",
            OpType::JumpZero => "JumpZero",
            OpType::JumpNeg => "JumpNeg",
            OpType::LiteralCreate => "LiteralCreate",
            OpType::StackCopy => "StackCopy",
            OpType::StackPop => "StackPop",
            OpType::StackLoad => "StackLoad",
            OpType::StackStore => "StackStore",
            OpType::StackSwap => "StackSwap",
            OpType::TupleCreate => "TupleCreate",
            OpType::TupleFromList => "TupleFromList",
            OpType::TupleWeakRef => "TupleWeakRef",
            OpType::TupleWeakUpgrade => "TupleWeakUpgrade",
            OpType::TableCreate => "TableCreate",
            OpType::ListCreate => "ListCreate",
            OpType::ListPush => "ListPush",
            OpType::ListPop => "ListPop",
            OpType::ListGetSlice => "ListGetSlice",
            OpType::BufferCreate => "BufferCreate",
            OpType::BufferGetSlice => "BufferGetSlice",
            OpType::BufferSetSlice => "BufferSetSlice",
            OpType::SeqLen => "SeqLen",
            OpType::SeqResize => "SeqResize",
            OpType::SeqGet => "SeqGet",
            OpType::SeqSet => "SeqSet",
            OpType::SeqToList => "SeqToList",
            OpType::SeqAppend => "SeqAppend",
        }
    }
}

/// An instruction that fails leaves the stack, the local slots and the arena
/// as they were.
pub proof fn lemma_failure_changes_nothing(op: Op, m: CallStackView, heap: HeapView)
    ensures
        op.effect(m, heap).result is Err ==> op.effect(m, heap).stack == m && op.effect(
            m,
            heap,
        ).heap == heap,
{
}

} // verus!
