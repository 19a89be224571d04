//! The dependency-ordered function linearization: callees before callers,
//! deterministic layer order, and cycle detection.

use c2zk::func::Func;
use c2zk::func::FuncType;
use c2zk::inst::Inst;
use c2zk::ir::Module;
use c2zk::topo::TopoSortError;
use c2zk::types::FuncIndex;

fn func(name: &str, calls: &[u32]) -> Func {
    let mut body: Vec<Inst> = calls
        .iter()
        .map(|c| Inst::Call { func_idx: FuncIndex(*c) })
        .collect();
    body.push(Inst::End);
    Func::new(
        name.to_string(),
        FuncType { params: vec![], results: vec![] },
        vec![],
        body,
    )
}

fn order_of(m: Module) -> Vec<u32> {
    m.functions_into_topo_sort()
        .ok()
        .unwrap()
        .iter()
        .map(|(i, _)| i.0)
        .collect()
}

#[test]
fn chain_is_ordered_callee_first() {
    // 2 calls 1, 1 calls 0
    let m = Module::new(
        vec![func("a", &[]), func("b", &[0]), func("c", &[1])],
        FuncIndex(2),
        vec![],
    );
    assert_eq!(order_of(m), vec![0, 1, 2]);
}

#[test]
fn layers_are_sorted_by_index_for_determinism() {
    // 3 calls 1 and 2; 1 and 2 call 0; the middle layer comes out as 1, 2
    let m = Module::new(
        vec![func("a", &[]), func("b", &[0]), func("c", &[0]), func("d", &[2, 1])],
        FuncIndex(3),
        vec![],
    );
    assert_eq!(order_of(m), vec![0, 1, 2, 3]);
}

#[test]
fn independent_functions_come_out_in_index_order() {
    let m = Module::new(
        vec![func("a", &[]), func("b", &[]), func("c", &[])],
        FuncIndex(0),
        vec![],
    );
    assert_eq!(order_of(m), vec![0, 1, 2]);
}

#[test]
fn every_callee_precedes_each_of_its_callers() {
    let m = Module::new(
        vec![
            func("a", &[3]),
            func("b", &[3, 0]),
            func("c", &[0, 1]),
            func("d", &[]),
        ],
        FuncIndex(2),
        vec![],
    );
    let sorted = m.functions_into_topo_sort().ok().unwrap();
    let pos = |k: u32| sorted.iter().position(|(i, _)| i.0 == k).unwrap();
    assert!(pos(3) < pos(0));
    assert!(pos(3) < pos(1));
    assert!(pos(0) < pos(1));
    assert!(pos(0) < pos(2));
    assert!(pos(1) < pos(2));
}

#[test]
fn mutual_recursion_fails_with_a_cycle_error() {
    // 0 calls 1 and 1 calls 0
    let m = Module::new(vec![func("a", &[1]), func("b", &[0])], FuncIndex(0), vec![]);
    let r = m.functions_into_topo_sort();
    assert!(matches!(r, Err(TopoSortError::Cycle(_))));
}

#[test]
fn direct_recursion_fails_with_a_cycle_error() {
    let m = Module::new(vec![func("a", &[0])], FuncIndex(0), vec![]);
    let r = m.functions_into_topo_sort();
    assert!(matches!(r, Err(TopoSortError::Cycle(_))));
}

#[test]
fn acyclic_part_does_not_mask_a_cycle() {
    // 0 is free; 1 and 2 block each other
    let m = Module::new(
        vec![func("a", &[]), func("b", &[2]), func("c", &[1])],
        FuncIndex(0),
        vec![],
    );
    assert!(matches!(m.functions_into_topo_sort(), Err(TopoSortError::Cycle(_))));
}
