//! The module mutation API: construction, lookup, index allocation,
//! replacement, removal, globals and start-function rewiring.

use c2zk::func::Func;
use c2zk::func::FuncType;
use c2zk::inst::Inst;
use c2zk::ir::Module;
use c2zk::ty::Ty;
use c2zk::types::FuncIndex;
use c2zk::types::GlobalIndex;

fn leaf(name: &str) -> Func {
    Func::new(
        name.to_string(),
        FuncType { params: vec![], results: vec![] },
        vec![],
        vec![Inst::End],
    )
}

fn caller(name: &str, callee: u32) -> Func {
    Func::new(
        name.to_string(),
        FuncType { params: vec![], results: vec![] },
        vec![],
        vec![Inst::Call { func_idx: FuncIndex(callee) }, Inst::End],
    )
}

#[test]
fn new_numbers_functions_in_order() {
    let m = Module::new(vec![leaf("a"), leaf("b"), leaf("c")], FuncIndex(0), vec![Ty::I64]);
    assert_eq!(m.len(), 3);
    assert_eq!(m.function(&FuncIndex(0)).unwrap().name(), "a");
    assert_eq!(m.function(&FuncIndex(1)).unwrap().name(), "b");
    assert_eq!(m.function(&FuncIndex(2)).unwrap().name(), "c");
    assert!(m.function(&FuncIndex(3)).is_none());
    assert_eq!(m.globals(), &vec![Ty::I64]);
    assert_eq!(m.start_func_idx, FuncIndex(0));
}

#[test]
fn lookup_by_name_finds_first_match() {
    let m = Module::new(vec![leaf("alpha"), leaf("beta")], FuncIndex(0), vec![]);
    assert_eq!(m.function_idx_by_name("beta"), Some(FuncIndex(1)));
    assert_eq!(m.function_by_name("alpha").unwrap().name(), "alpha");
    assert!(m.function_by_name("gamma").is_none());
    assert!(m.function_idx_by_name("gamma").is_none());
}

#[test]
fn push_function_returns_strictly_increasing_indices() {
    let mut m = Module::new(vec![leaf("a")], FuncIndex(0), vec![]);
    let i1 = m.push_function(leaf("b"));
    let i2 = m.push_function(leaf("c"));
    let i3 = m.push_function(leaf("d"));
    assert_eq!(i1, FuncIndex(1));
    assert_eq!(i2, FuncIndex(2));
    assert_eq!(i3, FuncIndex(3));
    assert!(i1.0 < i2.0 && i2.0 < i3.0);
}

#[test]
fn indices_are_never_reused_after_removals() {
    let mut m = Module::new(vec![leaf("a")], FuncIndex(0), vec![]);
    let i1 = m.push_function(leaf("b"));
    let i2 = m.push_function(leaf("c"));
    // removing below the largest index
    m.remove_function(&i1);
    let i3 = m.push_function(leaf("d"));
    // removing the largest index held so far
    m.remove_function(&i3);
    let i4 = m.push_function(leaf("e"));
    assert_eq!(i1, FuncIndex(1));
    assert_eq!(i2, FuncIndex(2));
    assert_eq!(i3, FuncIndex(3));
    assert_eq!(i4, FuncIndex(4));
    assert!(m.function(&i1).is_none());
    assert!(m.function(&i3).is_none());
    assert_eq!(m.function(&i4).unwrap().name(), "e");
}

#[test]
fn next_free_function_idx_advances_past_every_index_ever_held() {
    let mut m = Module::new(vec![leaf("a"), leaf("b")], FuncIndex(0), vec![]);
    assert_eq!(m.next_free_function_idx(), FuncIndex(2));
    m.set_function(FuncIndex(7), leaf("far"));
    assert_eq!(m.next_free_function_idx(), FuncIndex(8));
    m.remove_function(&FuncIndex(7));
    assert_eq!(m.next_free_function_idx(), FuncIndex(8));
}

#[test]
fn set_function_replaces_in_place_and_appends_new_indices() {
    let mut m = Module::new(vec![leaf("a"), leaf("b")], FuncIndex(0), vec![]);
    m.set_function(FuncIndex(0), leaf("a2"));
    let names: Vec<String> = m.functions().iter().map(|f| f.name().to_string()).collect();
    assert_eq!(names, vec!["a2".to_string(), "b".to_string()]);
    m.set_function(FuncIndex(5), leaf("e"));
    let names: Vec<String> = m.functions().iter().map(|f| f.name().to_string()).collect();
    assert_eq!(names, vec!["a2".to_string(), "b".to_string(), "e".to_string()]);
}

#[test]
fn remove_function_swaps_the_last_entry_into_place() {
    let mut m = Module::new(vec![leaf("a"), leaf("b"), leaf("c")], FuncIndex(1), vec![]);
    m.remove_function(&FuncIndex(0));
    let names: Vec<String> = m.functions().iter().map(|f| f.name().to_string()).collect();
    assert_eq!(names, vec!["c".to_string(), "b".to_string()]);
    m.remove_function(&FuncIndex(9));
    assert_eq!(m.len(), 2);
}

#[test]
fn add_global_appends_typed_slots() {
    let mut m = Module::new(vec![leaf("a")], FuncIndex(0), vec![]);
    assert_eq!(m.add_global(Ty::I32), GlobalIndex(0));
    assert_eq!(m.add_global(Ty::I64), GlobalIndex(1));
    assert_eq!(m.globals(), &vec![Ty::I32, Ty::I64]);
}

#[test]
fn func_names_maps_every_index_to_its_name() {
    let m = Module::new(vec![leaf("a"), leaf("b")], FuncIndex(0), vec![]);
    let names = m.func_names();
    assert_eq!(names.len(), 2);
    assert_eq!(names.get(&0), Some(&"a".to_string()));
    assert_eq!(names.get(&1), Some(&"b".to_string()));
}

#[test]
fn add_prologue_function_splices_a_call_up_front() {
    let mut m = Module::new(vec![caller("start", 0)], FuncIndex(0), vec![]);
    let idx = m.add_prologue_function(leaf("setup"));
    assert_eq!(idx, FuncIndex(1));
    let start = m.function(&FuncIndex(0)).unwrap();
    assert_eq!(
        start.instructions(),
        &vec![
            Inst::Call { func_idx: FuncIndex(1) },
            Inst::Call { func_idx: FuncIndex(0) },
            Inst::End,
        ],
    );
}

#[test]
fn wrap_start_func_installs_a_new_start() {
    let mut m = Module::new(vec![leaf("start")], FuncIndex(0), vec![]);
    m.wrap_start_func(
        "outer".to_string(),
        vec![Inst::Nop],
        vec![Inst::End],
    );
    assert_eq!(m.start_func_idx, FuncIndex(1));
    let outer = m.start_function();
    assert_eq!(outer.name(), "outer");
    assert_eq!(
        outer.instructions(),
        &vec![Inst::Nop, Inst::Call { func_idx: FuncIndex(0) }, Inst::End],
    );
    assert!(m.function(&FuncIndex(0)).is_some());
}

#[test]
fn functions_into_vec_keeps_insertion_order() {
    let m = Module::new(vec![leaf("a"), leaf("b")], FuncIndex(0), vec![]);
    let v = m.functions_into_vec();
    assert_eq!(v.len(), 2);
    assert_eq!(v[0].0, FuncIndex(0));
    assert_eq!(v[0].1.name(), "a");
    assert_eq!(v[1].0, FuncIndex(1));
    assert_eq!(v[1].1.name(), "b");
}

#[test]
fn dependencies_lists_call_targets_in_order() {
    let f = Func::new(
        "f".to_string(),
        FuncType { params: vec![], results: vec![] },
        vec![],
        vec![
            Inst::Call { func_idx: FuncIndex(3) },
            Inst::Nop,
            Inst::Call { func_idx: FuncIndex(1) },
            Inst::Call { func_idx: FuncIndex(3) },
            Inst::End,
        ],
    );
    assert_eq!(f.dependencies(), vec![FuncIndex(3), FuncIndex(1), FuncIndex(3)]);
}

#[test]
fn func_prepend_and_set_instructions() {
    let mut f = leaf("f");
    f.prepend(Inst::Nop);
    assert_eq!(f.instructions(), &vec![Inst::Nop, Inst::End]);
    f.set_instructions(vec![Inst::Return]);
    assert_eq!(f.instructions(), &vec![Inst::Return]);
    assert_eq!(f.name(), "f");
}

#[test]
fn duplicate_names_resolve_to_the_first_entry() {
    // duplicate names are a caller error, not rejected: lookup is linear and
    // front to back
    let m = Module::new(vec![leaf("twin"), leaf("twin")], FuncIndex(0), vec![]);
    assert_eq!(m.function_idx_by_name("twin"), Some(FuncIndex(0)));
}

#[test]
fn a_module_may_start_empty() {
    let mut m = Module::new(vec![], FuncIndex(0), vec![]);
    assert_eq!(m.len(), 0);
    assert!(m.function(&FuncIndex(0)).is_none());
    assert!(m.function_by_name("anything").is_none());
    assert_eq!(m.func_names().len(), 0);
    // allocation starts at zero on an empty module
    assert_eq!(m.push_function(leaf("first")), FuncIndex(0));
}
