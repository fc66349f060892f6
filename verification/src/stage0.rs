//! The emitter: a statement and expression tree is lowered to instructions.

pub mod binaryop;
pub mod codegen;
pub mod evaluation;
pub mod expr;
pub mod function;
pub mod meaning;
pub mod module;
pub mod scope;
pub mod statement;
pub mod unaryop;

pub use binaryop::{BinaryOp, BinaryOpType, Decision};
pub use codegen::{CodeGenerator, GenView, Label, LabelData, LabelView, Var};
pub use expr::{Expr, Span};
pub use function::Function;
pub use module::{Module, ModuleItem, Program};
pub use scope::BlockScopeAnalysis;
pub use statement::{If, IfElse, IfV, Loop, Statement, StmtV};
pub use unaryop::{UnaryOp, UnaryOpType};
