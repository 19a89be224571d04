//! The closed instruction sum type of the IR, with an extension slot for
//! target-specific primitives.

use vstd::prelude::*;

use crate::types::FuncIndex;
use crate::types::GlobalIndex;
use crate::ty::Ty;

verus! {

/// The type of a structured control block.
#[derive(Clone, Copy, PartialEq, Eq, Structural, Debug)]
pub enum BlockType {
    /// The block has no parameters and no results.
    Empty,
    /// The block has no parameters and a single result of the given type.
    Value(Ty),
    /// The block's parameters and results are given by a function type index.
    FuncType(u32),
}

/// Target-specific primitives of the Miden VM that have no portable
/// equivalent.
#[derive(Clone, Copy, PartialEq, Eq, Structural, Debug)]
pub enum MidenExt {
    /// Push the current operand stack depth.
    SDepth,
    /// Pop the top value and push 1 if it differs from the immediate, else 0.
    NeqImm(i32),
    /// Begin a `while.true` loop: pop the top value and enter the loop body if
    /// it is non-zero; the matching `End` re-checks a freshly pushed value.
    While,
}

/// The open extension slot: target-specific opcodes that only one target
/// understands.
#[derive(Clone, Copy, PartialEq, Eq, Structural, Debug)]
pub enum Ext {
    Miden(MidenExt),
}

/// An IR instruction. Control-flow instructions are linear markers in a flat
/// sequence, not a nested tree, mirroring the binary encoding they derive
/// from.
#[derive(Clone, Copy, PartialEq, Eq, Structural, Debug)]
pub enum Inst {
    Unreachable,
    Nop,
    Call { func_idx: FuncIndex },
    End,
    Return,
    Loop { block_type: BlockType },
    Block { blockty: BlockType },
    BrIf { relative_depth: u32 },
    Br { relative_depth: u32 },
    I32Const { value: i32 },
    I64Const { value: i64 },
    GlobalGet { global_idx: GlobalIndex },
    GlobalSet { global_idx: GlobalIndex },
    LocalGet { local_idx: u32 },
    LocalTee { local_idx: u32 },
    LocalSet { local_idx: u32 },
    I32Load { offset: u32 },
    I32Store { offset: u32 },
    I32Add,
    I32Sub,
    I32Mul,
    I32Eqz,
    I32WrapI64,
    I32And,
    I32GeU,
    I64Add,
    I64Mul,
    I64Eqz,
    I64And,
    I64GeU,
    I64Ne,
    I64Eq,
    I64ExtendI32U,
    /// Abstract read of the next public input; resolved exclusively by the
    /// public I/O lowering pass and illegal to reach code generation.
    PubInputRead,
    /// Abstract write of one public output; resolved exclusively by the
    /// public I/O lowering pass and illegal to reach code generation.
    PubOutputWrite,
    /// Abstract read of the next secret input; reserved for a separate
    /// lowering mechanism.
    SecretInputRead,
    Swap { idx: u32 },
    Dup { idx: u32 },
    Ext(Ext),
}

impl From<MidenExt> for Inst {
    fn from(e: MidenExt) -> (r: Inst) {
        Inst::Ext(Ext::Miden(e))
    }
}

impl vstd::std_specs::convert::FromSpecImpl<MidenExt> for Inst {
    open spec fn obeys_from_spec() -> bool {
        true
    }

    open spec fn from_spec(e: MidenExt) -> Self {
        Inst::Ext(Ext::Miden(e))
    }
}

} // verus!
