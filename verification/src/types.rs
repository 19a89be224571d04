//! Index types and entity descriptions for the WebAssembly-derived module
//! format. Index types are opaque, totally-ordered numeric handles.

use vstd::prelude::*;

verus! {

/// Index type of a function (imported or defined) inside the module.
#[derive(Clone, Copy, PartialEq, Eq, Structural, Hash, PartialOrd, Ord, Debug)]
pub struct FuncIndex(pub u32);

/// Index type of a defined function inside the module.
#[derive(Clone, Copy, PartialEq, Eq, Structural, Hash, PartialOrd, Ord, Debug)]
pub struct DefinedFuncIndex(pub u32);

/// Index type of a defined table inside the module.
#[derive(Clone, Copy, PartialEq, Eq, Structural, Hash, PartialOrd, Ord, Debug)]
pub struct DefinedTableIndex(pub u32);

/// Index type of a defined memory inside the module.
#[derive(Clone, Copy, PartialEq, Eq, Structural, Hash, PartialOrd, Ord, Debug)]
pub struct DefinedMemoryIndex(pub u32);

/// Index type of an owned memory inside the module.
#[derive(Clone, Copy, PartialEq, Eq, Structural, Hash, PartialOrd, Ord, Debug)]
pub struct OwnedMemoryIndex(pub u32);

/// Index type of a defined global inside the module.
#[derive(Clone, Copy, PartialEq, Eq, Structural, Hash, PartialOrd, Ord, Debug)]
pub struct DefinedGlobalIndex(pub u32);

/// Index type of a table (imported or defined) inside the module.
#[derive(Clone, Copy, PartialEq, Eq, Structural, Hash, PartialOrd, Ord, Debug)]
pub struct TableIndex(pub u32);

/// Index type of a global variable (imported or defined) inside the module.
#[derive(Clone, Copy, PartialEq, Eq, Structural, Hash, PartialOrd, Ord, Debug)]
pub struct GlobalIndex(pub u32);

/// Index type of a linear memory (imported or defined) inside the module.
#[derive(Clone, Copy, PartialEq, Eq, Structural, Hash, PartialOrd, Ord, Debug)]
pub struct MemoryIndex(pub u32);

/// Index type of a signature (imported or defined) inside the module.
#[derive(Clone, Copy, PartialEq, Eq, Structural, Hash, PartialOrd, Ord, Debug)]
pub struct SignatureIndex(pub u32);

/// Index type of a passive data segment inside the module.
#[derive(Clone, Copy, PartialEq, Eq, Structural, Hash, PartialOrd, Ord, Debug)]
pub struct DataIndex(pub u32);

/// Index type of a passive element segment inside the module.
#[derive(Clone, Copy, PartialEq, Eq, Structural, Hash, PartialOrd, Ord, Debug)]
pub struct ElemIndex(pub u32);

/// Index type of a type inside the module.
#[derive(Clone, Copy, PartialEq, Eq, Structural, Hash, PartialOrd, Ord, Debug)]
pub struct TypeIndex(pub u32);

/// Index type of an event inside the module.
#[derive(Clone, Copy, PartialEq, Eq, Structural, Hash, PartialOrd, Ord, Debug)]
pub struct TagIndex(pub u32);

impl From<u32> for FuncIndex {
    fn from(v: u32) -> (r: Self) {
        FuncIndex(v)
    }
}

impl vstd::std_specs::convert::FromSpecImpl<u32> for FuncIndex {
    open spec fn obeys_from_spec() -> bool {
        true
    }

    open spec fn from_spec(v: u32) -> Self {
        FuncIndex(v)
    }
}

impl From<FuncIndex> for u32 {
    fn from(v: FuncIndex) -> (r: Self) {
        v.0
    }
}

impl vstd::std_specs::convert::FromSpecImpl<FuncIndex> for u32 {
    open spec fn obeys_from_spec() -> bool {
        true
    }

    open spec fn from_spec(v: FuncIndex) -> Self {
        v.0
    }
}

impl From<u32> for GlobalIndex {
    fn from(v: u32) -> (r: Self) {
        GlobalIndex(v)
    }
}

impl vstd::std_specs::convert::FromSpecImpl<u32> for GlobalIndex {
    open spec fn obeys_from_spec() -> bool {
        true
    }

    open spec fn from_spec(v: u32) -> Self {
        GlobalIndex(v)
    }
}

impl From<GlobalIndex> for u32 {
    fn from(v: GlobalIndex) -> (r: Self) {
        v.0
    }
}

impl vstd::std_specs::convert::FromSpecImpl<GlobalIndex> for u32 {
    open spec fn obeys_from_spec() -> bool {
        true
    }

    open spec fn from_spec(v: GlobalIndex) -> Self {
        v.0
    }
}

/// An index of an entity.
#[derive(Clone, Copy, PartialEq, Eq, Structural, Debug)]
pub enum EntityIndex {
    /// Function index.
    Function(FuncIndex),
    /// Table index.
    Table(TableIndex),
    /// Memory index.
    Memory(MemoryIndex),
    /// Global index.
    Global(GlobalIndex),
}

impl From<FuncIndex> for EntityIndex {
    fn from(idx: FuncIndex) -> (r: EntityIndex) {
        EntityIndex::Function(idx)
    }
}

impl vstd::std_specs::convert::FromSpecImpl<FuncIndex> for EntityIndex {
    open spec fn obeys_from_spec() -> bool {
        true
    }

    open spec fn from_spec(idx: FuncIndex) -> Self {
        EntityIndex::Function(idx)
    }
}

impl From<TableIndex> for EntityIndex {
    fn from(idx: TableIndex) -> (r: EntityIndex) {
        EntityIndex::Table(idx)
    }
}

impl vstd::std_specs::convert::FromSpecImpl<TableIndex> for EntityIndex {
    open spec fn obeys_from_spec() -> bool {
        true
    }

    open spec fn from_spec(idx: TableIndex) -> Self {
        EntityIndex::Table(idx)
    }
}

impl From<MemoryIndex> for EntityIndex {
    fn from(idx: MemoryIndex) -> (r: EntityIndex) {
        EntityIndex::Memory(idx)
    }
}

impl vstd::std_specs::convert::FromSpecImpl<MemoryIndex> for EntityIndex {
    open spec fn obeys_from_spec() -> bool {
        true
    }

    open spec fn from_spec(idx: MemoryIndex) -> Self {
        EntityIndex::Memory(idx)
    }
}

impl From<GlobalIndex> for EntityIndex {
    fn from(idx: GlobalIndex) -> (r: EntityIndex) {
        EntityIndex::Global(idx)
    }
}

impl vstd::std_specs::convert::FromSpecImpl<GlobalIndex> for EntityIndex {
    open spec fn obeys_from_spec() -> bool {
        true
    }

    open spec fn from_spec(idx: GlobalIndex) -> Self {
        EntityIndex::Global(idx)
    }
}

/// How a global variable receives its initial value.
#[derive(Clone, Copy, PartialEq, Eq, Structural, Hash, Debug)]
pub enum GlobalInit {
    /// An `i32.const`.
    I32Const(i32),
    /// An `i64.const`.
    I64Const(i64),
    /// An `f32.const`, carried as its bit pattern.
    F32Const(u32),
    /// An `f64.const`, carried as its bit pattern.
    F64Const(u64),
    /// A vector constant, carried as its bit pattern.
    V128Const(u128),
    /// A `global.get` of another global.
    GetGlobal(GlobalIndex),
    /// A `ref.null`.
    RefNullConst,
    /// A `ref.func <index>`.
    RefFunc(FuncIndex),
    /// The global is imported from, and thus initialized by, a different module.
    Import,
}

/// A linear memory description.
#[derive(Clone, Copy, PartialEq, Eq, Structural, Hash, Debug)]
pub struct Memory {
    /// The minimum number of pages in the memory.
    pub minimum: u64,
    /// The maximum number of pages in the memory.
    pub maximum: Option<u64>,
    /// Whether the memory may be shared between multiple threads.
    pub shared: bool,
    /// Whether or not this is a 64-bit memory.
    pub memory64: bool,
}

/// An event description.
#[derive(Clone, Copy, PartialEq, Eq, Structural, Hash, Debug)]
pub struct Tag {
    /// The event signature type.
    pub ty: TypeIndex,
}

} // verus!
