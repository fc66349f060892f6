//! A compact stack-based virtual machine and the emitter that feeds it.
//!
//! * [`datamodel`] holds the dynamic values and the arena of shared
//!   containers.
//! * [`bytecode`] holds the instruction set, its wire format, what each
//!   instruction does, and the loader that makes a program a tuple of
//!   modules.
//! * [`callstack`], [`callframe`] and [`vm`] hold the machine: the values of
//!   one call, the frame of one call, and the loop that runs the frames.
//! * [`stage0`] holds the emitter: the tree of statements and expressions,
//!   the analysis that puts in the drops of variables, the generator that
//!   resolves jumps, and the proofs of what lowered expressions compute.
//! * [`stage1`] holds the types of the language above the emitter.
//! * [`token`] splits source text into tokens.
//!
//! The machine does no arithmetic on reals and calls no routine of its host.
//! Where a program needs either, the machine stops and says what it needs;
//! the host does the work, pushes the result and lets the machine go on.

pub mod bytecode;
pub mod callframe;
pub mod callstack;
pub mod datamodel;
pub mod stage0;
pub mod stage1;
pub mod token;
pub mod vm;

pub use vm::{VirtualMachine, VmState};
