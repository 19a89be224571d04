//! A compiler backend that lowers a portable, WebAssembly-derived stack-machine
//! intermediate representation into assembly for zero-knowledge virtual machines
//! that expose only an operand stack, linear memory, and named procedures.
//!
//! The crate covers the IR data model and its mutation API, the
//! dependency-ordered function linearization, the pass pipeline with the
//! public-input/output lowering pass, and the code-generation contract that
//! turns IR instructions into target tokens.

pub mod codegen;
pub mod dec;
pub mod func;
mod imap;
pub mod inst;
pub mod ir;
pub mod miden;
pub mod pass;
pub mod save_stack_pub_inputs;
pub mod topo;
pub mod ty;
pub mod types;
