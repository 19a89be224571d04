//! The public I/O lowering pass: synthesized procedures, rewriting, start
//! wrapping, reuse by name, and width arithmetic.

use c2zk::func::Func;
use c2zk::func::FuncType;
use c2zk::inst::Inst;
use c2zk::ir::Module;
use c2zk::pass::IrPass;
use c2zk::pass::PassError;
use c2zk::save_stack_pub_inputs::SaveStackPubInputsPass;
use c2zk::ty::Ty;
use c2zk::types::FuncIndex;

fn io_module() -> Module {
    let main = Func::new(
        "main".to_string(),
        FuncType { params: vec![], results: vec![] },
        vec![],
        vec![
            Inst::PubInputRead,
            Inst::PubInputRead,
            Inst::I64Add,
            Inst::PubOutputWrite,
            Inst::End,
        ],
    );
    Module::new(vec![main], FuncIndex(0), vec![])
}

#[test]
fn no_abstract_io_instruction_survives_the_pass() {
    let mut m = io_module();
    let pass = SaveStackPubInputsPass::new(1000, 2000);
    pass.run_mod_pass(&mut m).unwrap();
    for f in m.functions() {
        for inst in f.instructions() {
            assert!(!matches!(inst, Inst::PubInputRead));
            assert!(!matches!(inst, Inst::PubOutputWrite));
        }
    }
}

#[test]
fn abstract_io_becomes_calls_to_the_synthesized_procedures() {
    let mut m = io_module();
    let pass = SaveStackPubInputsPass::new(1000, 2000);
    pass.run_mod_pass(&mut m).unwrap();
    let get_idx = m.function_idx_by_name("omni_miden_pub_input").unwrap();
    let store_idx = m.function_idx_by_name("omni_miden_pub_output").unwrap();
    let main = m.function_by_name("main").unwrap();
    assert_eq!(
        main.instructions(),
        &vec![
            Inst::Call { func_idx: get_idx },
            Inst::Call { func_idx: get_idx },
            Inst::I64Add,
            Inst::Call { func_idx: store_idx },
            Inst::End,
        ],
    );
}

#[test]
fn the_pass_adds_two_cursor_globals() {
    let mut m = io_module();
    assert_eq!(m.globals().len(), 0);
    let pass = SaveStackPubInputsPass::new(1000, 2000);
    pass.run_mod_pass(&mut m).unwrap();
    assert_eq!(m.globals(), &vec![Ty::I32, Ty::I32]);
}

#[test]
fn the_start_function_is_wrapped_between_save_and_load() {
    let mut m = io_module();
    let old_start = m.start_func_idx;
    let pass = SaveStackPubInputsPass::new(1000, 2000);
    pass.run_mod_pass(&mut m).unwrap();
    assert_ne!(m.start_func_idx, old_start);
    let save_idx = m.function_idx_by_name("save_pub_inputs").unwrap();
    let load_idx = m.function_idx_by_name("load_pub_outputs_on_stack").unwrap();
    let wrapper = m.start_function();
    assert_eq!(wrapper.name(), "start_with_miden_io_persistent");
    assert_eq!(
        wrapper.instructions(),
        &vec![
            Inst::Call { func_idx: save_idx },
            Inst::Call { func_idx: old_start },
            Inst::Call { func_idx: load_idx },
            Inst::End,
        ],
    );
    assert!(m.function(&old_start).is_some());
}

#[test]
fn two_independent_instances_get_identical_auxiliary_procedures() {
    let pass = SaveStackPubInputsPass::new(1000, 2000);
    let mut m1 = io_module();
    let mut m2 = io_module();
    pass.run_mod_pass(&mut m1).unwrap();
    pass.run_mod_pass(&mut m2).unwrap();
    for name in [
        "save_pub_inputs",
        "omni_miden_pub_input",
        "omni_miden_pub_output",
        "load_pub_outputs_on_stack",
    ] {
        let f1 = m1.function_by_name(name).unwrap();
        let f2 = m2.function_by_name(name).unwrap();
        assert_eq!(f1.name(), f2.name());
        assert_eq!(f1.sig().params, f2.sig().params);
        assert_eq!(f1.sig().results, f2.sig().results);
        assert_eq!(f1.instructions(), f2.instructions());
        assert_eq!(m1.function_idx_by_name(name), m2.function_idx_by_name(name));
    }
}

#[test]
fn auxiliary_procedures_carry_the_reserved_signatures() {
    let mut m = io_module();
    let pass = SaveStackPubInputsPass::new(1000, 2000);
    pass.run_mod_pass(&mut m).unwrap();
    let save = m.function_by_name("save_pub_inputs").unwrap();
    assert_eq!(save.sig().params, vec![]);
    assert_eq!(save.sig().results, vec![]);
    let get = m.function_by_name("omni_miden_pub_input").unwrap();
    assert_eq!(get.sig().params, vec![]);
    assert_eq!(get.sig().results, vec![Ty::I32]);
    let store = m.function_by_name("omni_miden_pub_output").unwrap();
    assert_eq!(store.sig().params, vec![Ty::I32]);
    assert_eq!(store.sig().results, vec![]);
    let load = m.function_by_name("load_pub_outputs_on_stack").unwrap();
    assert_eq!(load.sig().params, vec![]);
    assert_eq!(load.sig().results, vec![]);
    assert_eq!(load.locals(), &vec![Ty::I32]);
}

#[test]
fn address_deltas_are_exact_widths() {
    let mut m = io_module();
    let pass = SaveStackPubInputsPass::new(1000, 2000);
    pass.run_mod_pass(&mut m).unwrap();
    let width = Ty::I64.size();
    assert_eq!(width, 8);
    assert_eq!(Ty::I32.size(), 4);
    // every address-step constant in the synthesized bodies is one width
    let get = m.function_by_name("omni_miden_pub_input").unwrap();
    assert_eq!(get.instructions()[1], Inst::I32Const { value: width });
    let store = m.function_by_name("omni_miden_pub_output").unwrap();
    assert_eq!(store.instructions()[4], Inst::I32Const { value: width });
    let save = m.function_by_name("save_pub_inputs").unwrap();
    assert_eq!(save.instructions()[11], Inst::I32Const { value: width });
    let load = m.function_by_name("load_pub_outputs_on_stack").unwrap();
    assert_eq!(load.instructions()[10], Inst::I32Const { value: width });
    // the cursors land on exact multiples of the width after any number of
    // iterations
    for n in 0..100i64 {
        let in_cursor = 1000 - n * width as i64;
        let out_cursor = 2000 + n * width as i64;
        assert_eq!((1000 - in_cursor) % width as i64, 0);
        assert_eq!((out_cursor - 2000) % width as i64, 0);
        assert_eq!((out_cursor - 2000) / width as i64, n);
    }
}

#[test]
fn the_cursors_are_initialized_to_the_configured_addresses() {
    let mut m = io_module();
    let pass = SaveStackPubInputsPass::new(1234, 5678);
    pass.run_mod_pass(&mut m).unwrap();
    let save = m.function_by_name("save_pub_inputs").unwrap();
    assert_eq!(save.instructions()[0], Inst::I32Const { value: 1234 });
    assert_eq!(save.instructions()[2], Inst::I32Const { value: 5678 });
    let load = m.function_by_name("load_pub_outputs_on_stack").unwrap();
    assert_eq!(load.instructions()[0], Inst::I32Const { value: 5678 });
}

#[test]
fn the_function_granularity_is_refused() {
    let pass = SaveStackPubInputsPass::new(1000, 2000);
    let mut f = Func::new(
        "f".to_string(),
        FuncType { params: vec![], results: vec![] },
        vec![],
        vec![Inst::End],
    );
    let r = pass.run_func_pass(&mut f);
    assert_eq!(r, Err(PassError::NotApplicable));
    assert_eq!(
        PassError::NotApplicable.message(),
        "pass invoked at a granularity it does not implement",
    );
}

#[test]
fn a_preexisting_reserved_procedure_is_reused_not_duplicated() {
    let own_save = Func::new(
        "save_pub_inputs".to_string(),
        FuncType { params: vec![], results: vec![] },
        vec![],
        vec![Inst::End],
    );
    let main = Func::new(
        "main".to_string(),
        FuncType { params: vec![], results: vec![] },
        vec![],
        vec![Inst::PubInputRead, Inst::PubOutputWrite, Inst::End],
    );
    let mut m = Module::new(vec![own_save, main], FuncIndex(1), vec![]);
    let before = m.len();
    let pass = SaveStackPubInputsPass::new(1000, 2000);
    pass.run_mod_pass(&mut m).unwrap();
    // three synthesized procedures plus the wrapper; no second save procedure
    assert_eq!(m.len(), before + 4);
    assert_eq!(m.function_idx_by_name("save_pub_inputs"), Some(FuncIndex(0)));
    let count = m
        .functions()
        .iter()
        .filter(|f| f.name() == "save_pub_inputs")
        .count();
    assert_eq!(count, 1);
    let wrapper = m.start_function();
    assert_eq!(wrapper.instructions()[0], Inst::Call { func_idx: FuncIndex(0) });
}
