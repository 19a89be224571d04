//! End-to-end I/O round trip: a small evaluator for the lowered instruction
//! set executes the rewritten module and checks that input order and output
//! order are both preserved from initial stack to final stack.

use std::collections::HashMap;

use c2zk::func::Func;
use c2zk::func::FuncType;
use c2zk::inst::Ext;
use c2zk::inst::Inst;
use c2zk::inst::MidenExt;
use c2zk::ir::Module;
use c2zk::pass::IrPass;
use c2zk::save_stack_pub_inputs::SaveStackPubInputsPass;
use c2zk::types::FuncIndex;

/// Machine state: operand stack (last element on top), typed global slots,
/// and byte-addressed linear memory holding one value per address.
struct Machine {
    stack: Vec<i64>,
    globals: Vec<i64>,
    memory: HashMap<i64, i64>,
}

fn exec_func(module: &Module, idx: FuncIndex, mac: &mut Machine) {
    let func = module
        .function(&idx)
        .unwrap_or_else(|| panic!("call to unknown function index {}", idx.0));
    let body = func.instructions();
    let mut locals = vec![0i64; func.locals().len()];
    // indices of the `While` openers whose loops are currently running
    let mut open_whiles: Vec<usize> = Vec::new();
    let mut pc = 0usize;
    loop {
        assert!(pc < body.len(), "fell off the end of a function body");
        match body[pc] {
            Inst::Nop => pc += 1,
            Inst::Call { func_idx } => {
                exec_func(module, func_idx, mac);
                pc += 1;
            }
            Inst::I32Const { value } => {
                mac.stack.push(value as i64);
                pc += 1;
            }
            Inst::I64Const { value } => {
                mac.stack.push(value);
                pc += 1;
            }
            Inst::I32Add | Inst::I64Add => {
                let b = mac.stack.pop().unwrap();
                let a = mac.stack.pop().unwrap();
                mac.stack.push(a.wrapping_add(b));
                pc += 1;
            }
            Inst::I32Sub => {
                let b = mac.stack.pop().unwrap();
                let a = mac.stack.pop().unwrap();
                mac.stack.push(a.wrapping_sub(b));
                pc += 1;
            }
            Inst::GlobalGet { global_idx } => {
                mac.stack.push(mac.globals[global_idx.0 as usize]);
                pc += 1;
            }
            Inst::GlobalSet { global_idx } => {
                let v = mac.stack.pop().unwrap();
                mac.globals[global_idx.0 as usize] = v;
                pc += 1;
            }
            Inst::LocalGet { local_idx } => {
                mac.stack.push(locals[local_idx as usize]);
                pc += 1;
            }
            Inst::LocalSet { local_idx } => {
                let v = mac.stack.pop().unwrap();
                locals[local_idx as usize] = v;
                pc += 1;
            }
            Inst::LocalTee { local_idx } => {
                let v = *mac.stack.last().unwrap();
                locals[local_idx as usize] = v;
                pc += 1;
            }
            Inst::I32Store { offset } => {
                let value = mac.stack.pop().unwrap();
                let addr = mac.stack.pop().unwrap();
                mac.memory.insert(addr + offset as i64, value);
                pc += 1;
            }
            Inst::I32Load { offset } => {
                let addr = mac.stack.pop().unwrap();
                let v = *mac.memory.get(&(addr + offset as i64)).unwrap_or(&0);
                mac.stack.push(v);
                pc += 1;
            }
            Inst::Dup { idx } => {
                let n = mac.stack.len();
                let v = mac.stack[n - 1 - idx as usize];
                mac.stack.push(v);
                pc += 1;
            }
            Inst::Swap { idx } => {
                let n = mac.stack.len();
                mac.stack.swap(n - 1, n - 1 - idx as usize);
                pc += 1;
            }
            Inst::Ext(Ext::Miden(MidenExt::SDepth)) => {
                let d = mac.stack.len() as i64;
                mac.stack.push(d);
                pc += 1;
            }
            Inst::Ext(Ext::Miden(MidenExt::NeqImm(k))) => {
                let v = mac.stack.pop().unwrap();
                mac.stack.push(if v != k as i64 { 1 } else { 0 });
                pc += 1;
            }
            Inst::Ext(Ext::Miden(MidenExt::While)) => {
                let cond = mac.stack.pop().unwrap();
                if cond != 0 {
                    open_whiles.push(pc);
                    pc += 1;
                } else {
                    pc = matching_end(body, pc) + 1;
                }
            }
            Inst::End => {
                match open_whiles.last() {
                    Some(&w) => {
                        let cond = mac.stack.pop().unwrap();
                        if cond != 0 {
                            pc = w + 1;
                        } else {
                            open_whiles.pop();
                            pc += 1;
                        }
                    }
                    None => return, // function end
                }
            }
            Inst::Return => return,
            other => panic!("instruction not handled by this evaluator: {:?}", other),
        }
    }
}

/// The index of the `End` that closes the block opened at `open`.
fn matching_end(body: &[Inst], open: usize) -> usize {
    let mut depth = 0usize;
    let mut i = open;
    loop {
        match body[i] {
            Inst::Block { .. } | Inst::Loop { .. } | Inst::Ext(Ext::Miden(MidenExt::While)) => {
                depth += 1;
            }
            Inst::End => {
                depth -= 1;
                if depth == 0 {
                    return i;
                }
            }
            _ => {}
        }
        i += 1;
    }
}

fn run(module: &Module, initial_stack: Vec<i64>) -> Vec<i64> {
    let mut mac = Machine {
        stack: initial_stack,
        globals: vec![0; module.globals().len()],
        memory: HashMap::new(),
    };
    exec_func(module, module.start_func_idx, &mut mac);
    mac.stack
}

fn io_module(body: Vec<Inst>) -> Module {
    let main = Func::new(
        "main".to_string(),
        FuncType { params: vec![], results: vec![] },
        vec![],
        body,
    );
    Module::new(vec![main], FuncIndex(0), vec![])
}

fn lowered(body: Vec<Inst>) -> Module {
    let mut m = io_module(body);
    let pass = SaveStackPubInputsPass::new(1000, 2000);
    pass.run_mod_pass(&mut m).unwrap();
    m
}

#[test]
fn two_inputs_added_leave_their_sum_on_the_stack() {
    let m = lowered(vec![
        Inst::PubInputRead,
        Inst::PubInputRead,
        Inst::I64Add,
        Inst::PubOutputWrite,
        Inst::End,
    ]);
    // initial stack [3, 4], top = 4
    assert_eq!(run(&m, vec![3, 4]), vec![7]);
}

#[test]
fn input_order_is_preserved_end_to_end() {
    // write both inputs straight back out: the final stack must equal the
    // initial one, first input at the bottom
    let m = lowered(vec![
        Inst::PubInputRead,
        Inst::PubOutputWrite,
        Inst::PubInputRead,
        Inst::PubOutputWrite,
        Inst::End,
    ]);
    assert_eq!(run(&m, vec![11, 22]), vec![11, 22]);
}

#[test]
fn output_order_is_write_order() {
    let m = lowered(vec![
        Inst::I32Const { value: 5 },
        Inst::PubOutputWrite,
        Inst::I32Const { value: 6 },
        Inst::PubOutputWrite,
        Inst::I32Const { value: 7 },
        Inst::PubOutputWrite,
        Inst::End,
    ]);
    // last written on top
    assert_eq!(run(&m, vec![]), vec![5, 6, 7]);
}

#[test]
fn no_inputs_and_no_outputs_leave_an_empty_stack() {
    let m = lowered(vec![Inst::Nop, Inst::End]);
    assert_eq!(run(&m, vec![]), Vec::<i64>::new());
}

#[test]
fn many_inputs_round_trip_in_order() {
    let m = lowered(vec![
        Inst::PubInputRead,
        Inst::PubOutputWrite,
        Inst::PubInputRead,
        Inst::PubOutputWrite,
        Inst::PubInputRead,
        Inst::PubOutputWrite,
        Inst::PubInputRead,
        Inst::PubOutputWrite,
        Inst::End,
    ]);
    assert_eq!(run(&m, vec![9, -2, 44, 1000]), vec![9, -2, 44, 1000]);
}
