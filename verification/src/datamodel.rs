//! Dynamic values: plain numbers and handles to shared, reference-counted
//! containers that live in a [`Heap`].

pub mod buffer;
pub mod function;
pub mod heap;
pub mod list;
pub mod realnum;
pub mod table;
pub mod tuple;
pub mod value;

pub use function::Identity;
pub use heap::{Heap, HeapView, Object, ObjectView, Slot, SlotView};
pub use realnum::Real;
pub use value::{
    Buffer, Function, Integer, List, NativeFn, Table, Tuple, TupleWeak, Unknown, Value,
    ValueTryIntoError, ValueType,
};
