//! Code generation: totality over the declared instruction coverage,
//! explicit rejection of everything else, and exact token bytes.

use c2zk::codegen::CodegenError;
use c2zk::codegen::Target;
use c2zk::codegen::TritonTarget;
use c2zk::codegen::TritonTargetConfig;
use c2zk::func::Func;
use c2zk::func::FuncType;
use c2zk::inst::BlockType;
use c2zk::inst::Ext;
use c2zk::inst::Inst;
use c2zk::inst::MidenExt;
use c2zk::ir::Module;
use c2zk::miden::emit_inst;
use c2zk::miden::InstBuffer;
use c2zk::miden::MidenAssemblyBuilder;
use c2zk::miden::MidenError;
use c2zk::miden::MidenTargetConfig;
use c2zk::types::FuncIndex;
use c2zk::types::GlobalIndex;

fn single_inst_module(inst: Inst) -> Module {
    let f = Func::new(
        "f".to_string(),
        FuncType { params: vec![], results: vec![] },
        vec![],
        vec![inst],
    );
    Module::new(vec![f], FuncIndex(0), vec![])
}

fn triton() -> TritonTarget {
    TritonTarget::new(TritonTargetConfig::default())
}

#[test]
fn every_supported_variant_compiles() {
    let supported = vec![
        Inst::Nop,
        Inst::End,
        Inst::Return,
        Inst::Call { func_idx: FuncIndex(0) },
        Inst::I32Const { value: -17 },
        Inst::I64Const { value: 123456789 },
        Inst::I32Add,
        Inst::I64Add,
        Inst::I32Mul,
        Inst::I64Mul,
        Inst::I64Eq,
        Inst::Dup { idx: 0 },
        Inst::Dup { idx: 15 },
        Inst::Swap { idx: 1 },
        Inst::Swap { idx: 15 },
    ];
    for inst in supported {
        let m = single_inst_module(inst);
        assert!(triton().compile_module(&m).is_ok(), "rejected {:?}", inst);
    }
}

#[test]
fn every_unsupported_variant_is_rejected_with_a_coverage_error() {
    let unsupported = vec![
        Inst::Unreachable,
        Inst::Loop { block_type: BlockType::Empty },
        Inst::Block { blockty: BlockType::Empty },
        Inst::BrIf { relative_depth: 0 },
        Inst::Br { relative_depth: 0 },
        Inst::GlobalGet { global_idx: GlobalIndex(0) },
        Inst::GlobalSet { global_idx: GlobalIndex(0) },
        Inst::LocalGet { local_idx: 0 },
        Inst::LocalTee { local_idx: 0 },
        Inst::LocalSet { local_idx: 0 },
        Inst::I32Load { offset: 0 },
        Inst::I32Store { offset: 0 },
        Inst::I32Sub,
        Inst::I32Eqz,
        Inst::I32WrapI64,
        Inst::I32And,
        Inst::I32GeU,
        Inst::I64Eqz,
        Inst::I64And,
        Inst::I64GeU,
        Inst::I64Ne,
        Inst::I64ExtendI32U,
        Inst::PubInputRead,
        Inst::PubOutputWrite,
        Inst::SecretInputRead,
        Inst::Dup { idx: 16 },
        Inst::Swap { idx: 0 },
        Inst::Swap { idx: 16 },
        Inst::Ext(Ext::Miden(MidenExt::SDepth)),
        Inst::Ext(Ext::Miden(MidenExt::NeqImm(0))),
        Inst::Ext(Ext::Miden(MidenExt::While)),
    ];
    for inst in unsupported {
        let m = single_inst_module(inst);
        match triton().compile_module(&m) {
            Err(CodegenError::UnsupportedInstruction { inst: bad, func_name }) => {
                assert_eq!(bad, inst);
                assert_eq!(func_name, "f");
            }
            other => panic!("expected a coverage error for {:?}, got ok={}", inst, other.is_ok()),
        }
    }
}

#[test]
fn a_call_to_an_unknown_index_is_a_structural_error() {
    let m = single_inst_module(Inst::Call { func_idx: FuncIndex(99) });
    match triton().compile_module(&m) {
        Err(CodegenError::UnknownFunction { func_idx, func_name }) => {
            assert_eq!(func_idx, FuncIndex(99));
            assert_eq!(func_name, "f");
            assert_eq!(
                CodegenError::UnknownFunction { func_idx, func_name }.message(),
                "call references an unknown function index",
            );
        }
        _ => panic!("expected an unknown-function error"),
    }
}

#[test]
fn tokens_are_emitted_in_order_with_exact_bytes() {
    let f = Func::new(
        "f".to_string(),
        FuncType { params: vec![], results: vec![] },
        vec![],
        vec![
            Inst::I32Const { value: 5 },
            Inst::I64Const { value: -8 },
            Inst::I32Add,
            Inst::Dup { idx: 3 },
            Inst::Swap { idx: 2 },
            Inst::I64Eq,
            Inst::End,
        ],
    );
    let m = Module::new(vec![f], FuncIndex(0), vec![]);
    let bytes = triton().compile_module(&m).unwrap();
    assert_eq!(
        String::from_utf8(bytes).unwrap(),
        "push 5\npush -8\nadd\ndup 3\nswap 2\neq\nreturn\n",
    );
}

#[test]
fn calls_resolve_to_symbolic_names() {
    let callee = Func::new(
        "callee".to_string(),
        FuncType { params: vec![], results: vec![] },
        vec![],
        vec![Inst::End],
    );
    let caller = Func::new(
        "caller".to_string(),
        FuncType { params: vec![], results: vec![] },
        vec![],
        vec![Inst::Call { func_idx: FuncIndex(0) }, Inst::End],
    );
    let m = Module::new(vec![callee, caller], FuncIndex(1), vec![]);
    let bytes = triton().compile_module(&m).unwrap();
    assert_eq!(String::from_utf8(bytes).unwrap(), "return\ncall callee\nreturn\n");
}

#[test]
fn the_target_is_named() {
    assert_eq!(triton().name(), "triton");
    assert_eq!(
        CodegenError::UnsupportedInstruction {
            inst: Inst::Unreachable,
            func_name: "f".to_string()
        }
        .message(),
        "instruction not supported by this target",
    );
}

#[test]
fn miden_emits_supported_instructions_and_rejects_the_rest() {
    let config = MidenTargetConfig::default();
    let names: Vec<String> = vec![];
    let mut sink = InstBuffer::new();
    emit_inst(&Inst::I32Const { value: 42 }, &config, &mut sink, &names).unwrap();
    emit_inst(&Inst::End, &config, &mut sink, &names).unwrap();
    let r = emit_inst(&Inst::Unreachable, &config, &mut sink, &names);
    match r {
        Err(MidenError::UnsupportedInstruction { inst }) => {
            assert_eq!(inst, Inst::Unreachable);
            assert_eq!(
                MidenError::UnsupportedInstruction { inst }.message(),
                "instruction not supported by this target",
            );
        }
        Ok(()) => panic!("expected a coverage error"),
    }
    assert_eq!(String::from_utf8(sink.into_bytes()).unwrap(), "push.42\nend\n");
}

#[test]
fn miden_rejects_a_mid_body_return_rather_than_dropping_it() {
    // a per-instruction emitter cannot tell a terminator-adjacent Return
    // from a mid-body one, so emitting nothing would be a silent miscompile
    let config = MidenTargetConfig::default();
    let names: Vec<String> = vec![];
    let mut sink = InstBuffer::new();
    let r = emit_inst(&Inst::Return, &config, &mut sink, &names);
    assert!(matches!(r, Err(MidenError::UnsupportedInstruction { inst: Inst::Return })));
    assert!(sink.into_bytes().is_empty());
}

#[test]
fn the_miden_builder_renders_negative_literals() {
    let b = MidenAssemblyBuilder::new();
    assert_eq!(String::from_utf8(b.push(-3)).unwrap(), "push.-3\n");
    assert_eq!(String::from_utf8(b.push(0)).unwrap(), "push.0\n");
    assert_eq!(String::from_utf8(b.end()).unwrap(), "end\n");
}

#[test]
fn extreme_literals_render_exactly() {
    let b = MidenAssemblyBuilder::new();
    assert_eq!(
        String::from_utf8(b.push(i64::MIN)).unwrap(),
        "push.-9223372036854775808\n",
    );
    assert_eq!(
        String::from_utf8(b.push(i64::MAX)).unwrap(),
        "push.9223372036854775807\n",
    );
    let m = single_inst_module(Inst::I32Const { value: i32::MIN });
    let bytes = triton().compile_module(&m).unwrap();
    assert_eq!(String::from_utf8(bytes).unwrap(), "push -2147483648\n");
}
