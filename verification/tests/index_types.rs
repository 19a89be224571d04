//! The opaque, totally-ordered index handles and entity descriptions.

use c2zk::types::DataIndex;
use c2zk::types::DefinedFuncIndex;
use c2zk::types::DefinedGlobalIndex;
use c2zk::types::DefinedMemoryIndex;
use c2zk::types::DefinedTableIndex;
use c2zk::types::ElemIndex;
use c2zk::types::EntityIndex;
use c2zk::types::FuncIndex;
use c2zk::types::GlobalIndex;
use c2zk::types::GlobalInit;
use c2zk::types::Memory;
use c2zk::types::MemoryIndex;
use c2zk::types::OwnedMemoryIndex;
use c2zk::types::SignatureIndex;
use c2zk::types::TableIndex;
use c2zk::types::Tag;
use c2zk::types::TagIndex;
use c2zk::types::TypeIndex;

#[test]
fn func_index_converts_to_and_from_u32() {
    let i = FuncIndex::from(7u32);
    assert_eq!(i, FuncIndex(7));
    assert_eq!(u32::from(i), 7);
    let g = GlobalIndex::from(3u32);
    assert_eq!(g, GlobalIndex(3));
    assert_eq!(u32::from(g), 3);
}

#[test]
fn indices_are_totally_ordered() {
    assert!(FuncIndex(1) < FuncIndex(2));
    assert!(TableIndex(5) > TableIndex(0));
    assert_eq!(TypeIndex(4).max(TypeIndex(9)), TypeIndex(9));
    let mut v = vec![SignatureIndex(3), SignatureIndex(1), SignatureIndex(2)];
    v.sort();
    assert_eq!(v, vec![SignatureIndex(1), SignatureIndex(2), SignatureIndex(3)]);
}

#[test]
fn entity_index_wraps_each_entity_kind() {
    assert_eq!(EntityIndex::from(FuncIndex(1)), EntityIndex::Function(FuncIndex(1)));
    assert_eq!(EntityIndex::from(TableIndex(2)), EntityIndex::Table(TableIndex(2)));
    assert_eq!(EntityIndex::from(MemoryIndex(3)), EntityIndex::Memory(MemoryIndex(3)));
    assert_eq!(EntityIndex::from(GlobalIndex(4)), EntityIndex::Global(GlobalIndex(4)));
}

#[test]
fn global_initializers_carry_their_payloads() {
    assert_ne!(GlobalInit::I32Const(1), GlobalInit::I32Const(2));
    assert_eq!(GlobalInit::I64Const(-9), GlobalInit::I64Const(-9));
    assert_eq!(GlobalInit::GetGlobal(GlobalIndex(2)), GlobalInit::GetGlobal(GlobalIndex(2)));
    assert_ne!(GlobalInit::RefNullConst, GlobalInit::Import);
    assert_eq!(GlobalInit::RefFunc(FuncIndex(1)), GlobalInit::RefFunc(FuncIndex(1)));
    assert_ne!(GlobalInit::F32Const(1), GlobalInit::F64Const(1));
    assert_eq!(GlobalInit::V128Const(5), GlobalInit::V128Const(5));
}

#[test]
fn memory_and_tag_descriptions_hold_their_fields() {
    let mem = Memory { minimum: 1, maximum: Some(16), shared: false, memory64: false };
    assert_eq!(mem.minimum, 1);
    assert_eq!(mem.maximum, Some(16));
    assert!(!mem.shared && !mem.memory64);
    let tag = Tag { ty: TypeIndex(3) };
    assert_eq!(tag.ty, TypeIndex(3));
}

#[test]
fn distinct_index_kinds_coexist() {
    let _ = DefinedFuncIndex(0);
    let _ = DefinedTableIndex(1);
    let _ = DefinedMemoryIndex(2);
    let _ = OwnedMemoryIndex(3);
    let _ = DefinedGlobalIndex(4);
    let _ = DataIndex(5);
    let _ = ElemIndex(6);
    let _ = TagIndex(7);
    assert_eq!(DataIndex(5), DataIndex(5));
}
