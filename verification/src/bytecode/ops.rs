//! What each family of instructions does.

pub mod bits;
pub mod buffer;
pub mod compare;
pub mod jump;
pub mod list;
pub mod num;
pub mod reals;
pub mod seq;
pub mod stack;
pub mod table;
pub mod tuple;
