//! The instruction set, its wire format, and what each instruction does.

pub mod function;
pub mod io;
pub mod literal;
pub mod module;
pub mod op;
pub mod opcodec;
pub mod program;
pub mod operation;
pub mod ops;

pub use function::Function;
pub use io::{BytesIO, BytesReadError, DataIO, Decoded};
pub use literal::LiteralValue;
pub use module::{ItemView, Module, ModuleItem};
pub use program::Program;
pub use operation::Operation;
pub use op::{ActionView, Effect, Op, OpAction, OpError, OpType, RealRequest};
