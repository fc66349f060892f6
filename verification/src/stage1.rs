//! Types of the language above the emitter.

pub mod typ;

pub use typ::{FunctionType, Type};
