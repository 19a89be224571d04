//! The public input/output lowering pass.
//!
//! The target machine receives public inputs only as the initial operand
//! stack and delivers public outputs only as the final operand stack, while
//! user code needs random, repeatable, order-preserving access to inputs and
//! stages outputs incrementally across arbitrary control flow. This pass
//! bridges both ends through linear memory: it synthesizes procedures that
//! relocate the initial stack into a descending memory region, serve inputs
//! back one at a time, stage outputs, and finally push every staged output
//! back onto the stack in write order; it replaces every abstract
//! [`Inst::PubInputRead`] and [`Inst::PubOutputWrite`] by a call to the
//! matching procedure; and it wraps the start function so that saving runs
//! first and reloading runs last.
//!
//! The pass must run exactly once per module lifetime: a second run would
//! double-wrap the start function. That is guarded by the pipeline
//! configuration, not by the pass itself; the synthesized procedures are
//! looked up by reserved name, so a re-run reuses rather than duplicates
//! them.

use vstd::prelude::*;

use crate::func::Func;
use crate::func::FuncType;
use crate::func::FuncTypeView;
use crate::func::FuncView;
use crate::inst::Ext;
use crate::inst::Inst;
use crate::inst::MidenExt;
use crate::ir::find_name;
use crate::ir::Module;
use crate::ir::ModuleView;
use crate::pass::IrPass;
use crate::pass::PassError;
use crate::ty::Ty;
use crate::types::FuncIndex;
use crate::types::GlobalIndex;

verus! {

/// The width, in addressable units, by which the cursors step: one I64 slot.
pub open spec fn io_width() -> i32 {
    Ty::I64.spec_size()
}

/// The body of `save_pub_inputs`: initialize both cursors, then, while the
/// reported stack depth is non-zero, pop the top input, store it at the
/// input cursor and step the cursor one width down. The initial stack ends
/// up in a descending memory region, the first value at the start address.
pub open spec fn save_pub_inputs_body(g_in: u32, g_out: u32, in_addr: i32, out_addr: i32) -> Seq<
    Inst,
> {
    seq![
        Inst::I32Const { value: in_addr },
        Inst::GlobalSet { global_idx: GlobalIndex(g_in) },
        Inst::I32Const { value: out_addr },
        Inst::GlobalSet { global_idx: GlobalIndex(g_out) },
        Inst::Ext(Ext::Miden(MidenExt::SDepth)),
        Inst::Ext(Ext::Miden(MidenExt::NeqImm(0))),
        Inst::Ext(Ext::Miden(MidenExt::While)),
        Inst::GlobalGet { global_idx: GlobalIndex(g_in) },
        Inst::Swap { idx: 1 },
        Inst::I32Store { offset: 0 },
        Inst::GlobalGet { global_idx: GlobalIndex(g_in) },
        Inst::I32Const { value: io_width() },
        Inst::I32Sub,
        Inst::GlobalSet { global_idx: GlobalIndex(g_in) },
        Inst::Ext(Ext::Miden(MidenExt::SDepth)),
        Inst::Ext(Ext::Miden(MidenExt::NeqImm(0))),
        Inst::End,
        Inst::End,
    ]
}

/// `save_pub_inputs` as a function value: no parameters, no results, no
/// locals.
pub open spec fn save_pub_inputs_fv(g_in: u32, g_out: u32, in_addr: i32, out_addr: i32) -> FuncView {
    FuncView {
        name: "save_pub_inputs"@,
        sig: FuncTypeView { params: Seq::<Ty>::empty(), results: Seq::<Ty>::empty() },
        locals: Seq::<Ty>::empty(),
        body: save_pub_inputs_body(g_in, g_out, in_addr, out_addr),
    }
}

/// The body of `omni_miden_pub_input`: step the input cursor one width up,
/// write it back, and load the value it now addresses. The cursor always
/// holds the address one width below the next unconsumed input, so
/// successive calls return inputs in the order they were saved.
pub open spec fn get_next_pub_input_body(g_in: u32) -> Seq<Inst> {
    seq![
        Inst::GlobalGet { global_idx: GlobalIndex(g_in) },
        Inst::I32Const { value: io_width() },
        Inst::I32Add,
        Inst::Dup { idx: 0 },
        Inst::GlobalSet { global_idx: GlobalIndex(g_in) },
        Inst::I32Load { offset: 0 },
        Inst::End,
    ]
}

/// `omni_miden_pub_input` as a function value: no parameters, one I32
/// result.
pub open spec fn get_next_pub_input_fv(g_in: u32) -> FuncView {
    FuncView {
        name: "omni_miden_pub_input"@,
        sig: FuncTypeView { params: Seq::<Ty>::empty(), results: seq![Ty::I32] },
        locals: Seq::<Ty>::empty(),
        body: get_next_pub_input_body(g_in),
    }
}

/// The body of `omni_miden_pub_output`: store the value handed over on the
/// stack at the output cursor, then advance the cursor one width up.
pub open spec fn store_pub_output_body(g_out: u32) -> Seq<Inst> {
    seq![
        Inst::GlobalGet { global_idx: GlobalIndex(g_out) },
        Inst::Swap { idx: 1 },
        Inst::I32Store { offset: 0 },
        Inst::GlobalGet { global_idx: GlobalIndex(g_out) },
        Inst::I32Const { value: io_width() },
        Inst::I32Add,
        Inst::GlobalSet { global_idx: GlobalIndex(g_out) },
        Inst::End,
    ]
}

/// `omni_miden_pub_output` as a function value: one I32 parameter, no
/// results.
pub open spec fn store_pub_output_fv(g_out: u32) -> FuncView {
    FuncView {
        name: "omni_miden_pub_output"@,
        sig: FuncTypeView { params: seq![Ty::I32], results: Seq::<Ty>::empty() },
        locals: Seq::<Ty>::empty(),
        body: store_pub_output_body(g_out),
    }
}

/// The body of `load_pub_outputs_on_stack`: walk a scratch pointer from the
/// output base address up to the output cursor, loading each staged output
/// and pushing it onto the stack, so the final stack holds every output in
/// original write order, the last written on top.
pub open spec fn load_pub_outputs_body(g_out: u32, out_addr: i32) -> Seq<Inst> {
    seq![
        Inst::I32Const { value: out_addr },
        Inst::LocalSet { local_idx: 0 },
        Inst::GlobalGet { global_idx: GlobalIndex(g_out) },
        Inst::LocalGet { local_idx: 0 },
        Inst::I32Sub,
        Inst::Ext(Ext::Miden(MidenExt::NeqImm(0))),
        Inst::Ext(Ext::Miden(MidenExt::While)),
        Inst::LocalGet { local_idx: 0 },
        Inst::I32Load { offset: 0 },
        Inst::LocalGet { local_idx: 0 },
        Inst::I32Const { value: io_width() },
        Inst::I32Add,
        Inst::LocalSet { local_idx: 0 },
        Inst::GlobalGet { global_idx: GlobalIndex(g_out) },
        Inst::LocalGet { local_idx: 0 },
        Inst::I32Sub,
        Inst::Ext(Ext::Miden(MidenExt::NeqImm(0))),
        Inst::End,
        Inst::End,
    ]
}

/// `load_pub_outputs_on_stack` as a function value: no parameters, no
/// results, one I32 scratch local for the walk pointer.
pub open spec fn load_pub_outputs_fv(g_out: u32, out_addr: i32) -> FuncView {
    FuncView {
        name: "load_pub_outputs_on_stack"@,
        sig: FuncTypeView { params: Seq::<Ty>::empty(), results: Seq::<Ty>::empty() },
        locals: seq![Ty::I32],
        body: load_pub_outputs_body(g_out, out_addr),
    }
}

fn save_pub_inputs_func(g_in: GlobalIndex, g_out: GlobalIndex, in_addr: i32, out_addr: i32) -> (r:
    Func)
    ensures
        r@ == save_pub_inputs_fv(g_in.0, g_out.0, in_addr, out_addr),
{
    let ins = vec![
        Inst::I32Const { value: in_addr },
        Inst::GlobalSet { global_idx: g_in },
        Inst::I32Const { value: out_addr },
        Inst::GlobalSet { global_idx: g_out },
        Inst::Ext(Ext::Miden(MidenExt::SDepth)),
        Inst::Ext(Ext::Miden(MidenExt::NeqImm(0))),
        Inst::Ext(Ext::Miden(MidenExt::While)),
        Inst::GlobalGet { global_idx: g_in },
        Inst::Swap { idx: 1 },
        Inst::I32Store { offset: 0 },
        Inst::GlobalGet { global_idx: g_in },
        Inst::I32Const { value: Ty::I64.size() },
        Inst::I32Sub,
        Inst::GlobalSet { global_idx: g_in },
        Inst::Ext(Ext::Miden(MidenExt::SDepth)),
        Inst::Ext(Ext::Miden(MidenExt::NeqImm(0))),
        Inst::End,
        Inst::End,
    ];
    proof {
        assert(ins@ =~= save_pub_inputs_body(g_in.0, g_out.0, in_addr, out_addr));
    }
    Func::new("save_pub_inputs".to_owned(), FuncType::void_void(), Vec::new(), ins)
}

fn get_next_pub_input_func(g_in: GlobalIndex) -> (r: Func)
    ensures
        r@ == get_next_pub_input_fv(g_in.0),
{
    let ins = vec![
        Inst::GlobalGet { global_idx: g_in },
        Inst::I32Const { value: Ty::I64.size() },
        Inst::I32Add,
        Inst::Dup { idx: 0 },
        Inst::GlobalSet { global_idx: g_in },
        Inst::I32Load { offset: 0 },
        Inst::End,
    ];
    let mut results: Vec<Ty> = Vec::new();
    results.push(Ty::I32);
    let sig = FuncType { params: Vec::new(), results };
    proof {
        assert(ins@ =~= get_next_pub_input_body(g_in.0));
        assert(sig@.results =~= seq![Ty::I32]);
    }
    Func::new("omni_miden_pub_input".to_owned(), sig, Vec::new(), ins)
}

fn store_pub_output_func(g_out: GlobalIndex) -> (r: Func)
    ensures
        r@ == store_pub_output_fv(g_out.0),
{
    let ins = vec![
        Inst::GlobalGet { global_idx: g_out },
        Inst::Swap { idx: 1 },
        Inst::I32Store { offset: 0 },
        Inst::GlobalGet { global_idx: g_out },
        Inst::I32Const { value: Ty::I64.size() },
        Inst::I32Add,
        Inst::GlobalSet { global_idx: g_out },
        Inst::End,
    ];
    let mut params: Vec<Ty> = Vec::new();
    params.push(Ty::I32);
    let sig = FuncType { params, results: Vec::new() };
    proof {
        assert(ins@ =~= store_pub_output_body(g_out.0));
        assert(sig@.params =~= seq![Ty::I32]);
    }
    Func::new("omni_miden_pub_output".to_owned(), sig, Vec::new(), ins)
}

fn load_pub_outputs_on_stack_func(g_out: GlobalIndex, out_addr: i32) -> (r: Func)
    ensures
        r@ == load_pub_outputs_fv(g_out.0, out_addr),
{
    let ins = vec![
        Inst::I32Const { value: out_addr },
        Inst::LocalSet { local_idx: 0 },
        Inst::GlobalGet { global_idx: g_out },
        Inst::LocalGet { local_idx: 0 },
        Inst::I32Sub,
        Inst::Ext(Ext::Miden(MidenExt::NeqImm(0))),
        Inst::Ext(Ext::Miden(MidenExt::While)),
        Inst::LocalGet { local_idx: 0 },
        Inst::I32Load { offset: 0 },
        Inst::LocalGet { local_idx: 0 },
        Inst::I32Const { value: Ty::I64.size() },
        Inst::I32Add,
        Inst::LocalSet { local_idx: 0 },
        Inst::GlobalGet { global_idx: g_out },
        Inst::LocalGet { local_idx: 0 },
        Inst::I32Sub,
        Inst::Ext(Ext::Miden(MidenExt::NeqImm(0))),
        Inst::End,
        Inst::End,
    ];
    let mut locals: Vec<Ty> = Vec::new();
    locals.push(Ty::I32);
    proof {
        assert(ins@ =~= load_pub_outputs_body(g_out.0, out_addr));
        assert(locals@ =~= seq![Ty::I32]);
    }
    Func::new("load_pub_outputs_on_stack".to_owned(), FuncType::void_void(), locals, ins)
}

/// The abstract public-I/O instructions, rewritten to calls: a
/// `PubInputRead` becomes a call to `omni_miden_pub_input`, a
/// `PubOutputWrite` a call to `omni_miden_pub_output`; everything else,
/// `SecretInputRead` included, stays as it is.
pub open spec fn rewrite_inst(i: Inst, get_idx: u32, store_idx: u32) -> Inst {
    match i {
        Inst::PubInputRead => Inst::Call { func_idx: FuncIndex(get_idx) },
        Inst::PubOutputWrite => Inst::Call { func_idx: FuncIndex(store_idx) },
        _ => i,
    }
}

/// A function with its abstract public-I/O instructions rewritten to calls.
pub open spec fn rewrite_fv(f: FuncView, get_idx: u32, store_idx: u32) -> FuncView {
    FuncView { body: f.body.map_values(|i: Inst| rewrite_inst(i, get_idx, store_idx)), ..f }
}

/// Every function of the module with its abstract public-I/O instructions
/// rewritten to calls.
pub open spec fn rewrite_all(funcs: Seq<(u32, FuncView)>, get_idx: u32, store_idx: u32) -> Seq<
    (u32, FuncView),
> {
    funcs.map_values(|p: (u32, FuncView)| (p.0, rewrite_fv(p.1, get_idx, store_idx)))
}

/// The function stored under the name, or the given one pushed when the name
/// is absent; paired with its index either way.
pub open spec fn locate_or_push(m: ModuleView, name: Seq<char>, fv: FuncView) -> (ModuleView, u32) {
    match find_name(m.funcs, name) {
        Some(i) => (m, i),
        None => (m.spec_push(fv), m.next_free() as u32),
    }
}

/// The module with a brand-new start function pushed, whose body is
/// `before ++ [Call old_start] ++ after`, installed as the new start.
pub open spec fn wrapped(m: ModuleView, name: Seq<char>, before: Seq<Inst>, after: Seq<Inst>) -> ModuleView {
    let nf = m.next;
    ModuleView {
        funcs: m.funcs.push(
            (
                nf,
                FuncView {
                    name,
                    sig: FuncTypeView { params: Seq::<Ty>::empty(), results: Seq::<Ty>::empty() },
                    locals: Seq::<Ty>::empty(),
                    body: before + seq![Inst::Call { func_idx: FuncIndex(m.start) }] + after,
                },
            ),
        ),
        start: nf,
        globals: m.globals,
        next: (nf + 1) as u32,
    }
}

/// The whole effect of the pass on a module: two fresh cursor globals, the
/// four I/O procedures located by reserved name or synthesized, every
/// abstract public-I/O instruction rewritten to a call, and the start
/// function wrapped between saving the inputs and reloading the outputs.
pub open spec fn spec_lowered(m: ModuleView, in_addr: i32, out_addr: i32) -> ModuleView {
    let g_in = m.globals.len() as u32;
    let g_out = (m.globals.len() + 1) as u32;
    let m0 = ModuleView { globals: m.globals.push(Ty::I32).push(Ty::I32), ..m };
    let s1 = locate_or_push(m0, "save_pub_inputs"@, save_pub_inputs_fv(g_in, g_out, in_addr, out_addr));
    let s2 = locate_or_push(s1.0, "omni_miden_pub_input"@, get_next_pub_input_fv(g_in));
    let s3 = locate_or_push(s2.0, "omni_miden_pub_output"@, store_pub_output_fv(g_out));
    let s4 = locate_or_push(s3.0, "load_pub_outputs_on_stack"@, load_pub_outputs_fv(g_out, out_addr));
    let m5 = ModuleView { funcs: rewrite_all(s4.0.funcs, s2.1, s3.1), ..s4.0 };
    wrapped(
        m5,
        "start_with_miden_io_persistent"@,
        seq![Inst::Call { func_idx: FuncIndex(s1.1) }],
        seq![Inst::Call { func_idx: FuncIndex(s4.1) }, Inst::End],
    )
}

/// The public input/output lowering pass, configured with the two fixed
/// memory base addresses of the input and output staging regions. The caller
/// must guarantee the two regions do not collide with each other or with
/// other memory users.
pub struct SaveStackPubInputsPass {
    pub_inputs_start_address: i32,
    pub_outputs_start_address: i32,
}

impl SaveStackPubInputsPass {
    /// The base address of the input staging region.
    pub closed spec fn in_addr(&self) -> i32 {
        self.pub_inputs_start_address
    }

    /// The base address of the output staging region.
    pub closed spec fn out_addr(&self) -> i32 {
        self.pub_outputs_start_address
    }

    pub fn new(pub_inputs_start_address: i32, pub_outputs_start_address: i32) -> (r:
        SaveStackPubInputsPass)
        ensures
            r.in_addr() == pub_inputs_start_address,
            r.out_addr() == pub_outputs_start_address,
    {
        SaveStackPubInputsPass { pub_inputs_start_address, pub_outputs_start_address }
    }
}

fn rewrite_func_io(f: &mut Func, get_idx: FuncIndex, store_idx: FuncIndex)
    ensures
        final(f)@ == rewrite_fv(old(f)@, get_idx.0, store_idx.0),
{
    let n = f.instructions().len();
    let mut nb: Vec<Inst> = Vec::new();
    proof {
        assert(nb@ =~= old(f)@.body.take(0).map_values(
            |i: Inst| rewrite_inst(i, get_idx.0, store_idx.0),
        ));
    }
    let mut i: usize = 0;
    while i < n
        invariant
            n == f@.body.len(),
            f@ == old(f)@,
            0 <= i <= n,
            nb@ == f@.body.take(i as int).map_values(
                |i0: Inst| rewrite_inst(i0, get_idx.0, store_idx.0),
            ),
        decreases n - i,
    {
        let inst = f.instructions()[i];
        match inst {
            Inst::PubInputRead => nb.push(Inst::Call { func_idx: get_idx }),
            Inst::PubOutputWrite => nb.push(Inst::Call { func_idx: store_idx }),
            _ => nb.push(inst),
        }
        proof {
            assert(nb@ =~= f@.body.take(i + 1).map_values(
                |i0: Inst| rewrite_inst(i0, get_idx.0, store_idx.0),
            ));
        }
        i = i + 1;
    }
    proof {
        assert(f@.body.take(n as int) =~= f@.body);
    }
    f.set_instructions(nb);
}

impl IrPass for SaveStackPubInputsPass {
    /// The module must be well-formed, hold at least one function, name a
    /// live start function, and leave room for up to five fresh function
    /// indices and two fresh globals.
    open spec fn mod_pass_requires(&self, m: ModuleView) -> bool {
        &&& m.wf()
        &&& m.contains_key(m.start)
        &&& m.next_free() + 5 <= u32::MAX
        &&& m.globals.len() + 2 <= u32::MAX
    }

    /// This pass transforms whole modules only; it places no demand on a
    /// single function because it always refuses one.
    open spec fn func_pass_requires(&self, f: FuncView) -> bool {
        true
    }

    fn run_mod_pass(&self, module: &mut Module) -> (r: Result<(), PassError>)
        ensures
            r is Ok,
            final(module)@ == spec_lowered(old(module)@, self.in_addr(), self.out_addr()),
    {
        let ghost m_in = module@;
        let pub_inputs_addr_idx = module.add_global(Ty::I32);
        let pub_outputs_addr_idx = module.add_global(Ty::I32);
        let ghost m0 = module@;
        proof {
            assert(m0.globals =~= m_in.globals.push(Ty::I32).push(Ty::I32));
            assert(m0 == (ModuleView {
                globals: m_in.globals.push(Ty::I32).push(Ty::I32),
                ..m_in
            }));
        }

        let save_pub_inputs_func_idx = match module.function_idx_by_name("save_pub_inputs") {
            Some(idx) => idx,
            None => module.push_function(
                save_pub_inputs_func(
                    pub_inputs_addr_idx,
                    pub_outputs_addr_idx,
                    self.pub_inputs_start_address,
                    self.pub_outputs_start_address,
                ),
            ),
        };
        let ghost s1 = locate_or_push(
            m0,
            "save_pub_inputs"@,
            save_pub_inputs_fv(
                pub_inputs_addr_idx.0,
                pub_outputs_addr_idx.0,
                self.pub_inputs_start_address,
                self.pub_outputs_start_address,
            ),
        );
        proof {
            assert(module@ == s1.0 && save_pub_inputs_func_idx.0 == s1.1);
            assert(s1.0.next_free() <= m0.next_free() + 1);
        }

        let get_next_pub_input_func_idx = match module.function_idx_by_name(
            "omni_miden_pub_input",
        ) {
            Some(idx) => idx,
            None => module.push_function(get_next_pub_input_func(pub_inputs_addr_idx)),
        };
        let ghost s2 = locate_or_push(
            s1.0,
            "omni_miden_pub_input"@,
            get_next_pub_input_fv(pub_inputs_addr_idx.0),
        );
        proof {
            assert(module@ == s2.0 && get_next_pub_input_func_idx.0 == s2.1);
            assert(s2.0.next_free() <= m0.next_free() + 2);
        }

        let store_pub_output_func_idx = match module.function_idx_by_name(
            "omni_miden_pub_output",
        ) {
            Some(idx) => idx,
            None => module.push_function(store_pub_output_func(pub_outputs_addr_idx)),
        };
        let ghost s3 = locate_or_push(
            s2.0,
            "omni_miden_pub_output"@,
            store_pub_output_fv(pub_outputs_addr_idx.0),
        );
        proof {
            assert(module@ == s3.0 && store_pub_output_func_idx.0 == s3.1);
            assert(s3.0.next_free() <= m0.next_free() + 3);
        }

        let load_pub_outputs_on_stack_func_idx = match module.function_idx_by_name(
            "load_pub_outputs_on_stack",
        ) {
            Some(idx) => idx,
            None => module.push_function(
                load_pub_outputs_on_stack_func(
                    pub_outputs_addr_idx,
                    self.pub_outputs_start_address,
                ),
            ),
        };
        let ghost s4 = locate_or_push(
            s3.0,
            "load_pub_outputs_on_stack"@,
            load_pub_outputs_fv(pub_outputs_addr_idx.0, self.pub_outputs_start_address),
        );
        proof {
            assert(module@ == s4.0 && load_pub_outputs_on_stack_func_idx.0 == s4.1);
            assert(s4.0.next_free() <= m0.next_free() + 4);
        }

        // Replace every abstract public-I/O instruction, in every function.
        let ghost m4 = s4.0;
        let mut entries = module.take_functions();
        let ghost all = entries@;
        let mut rebuilt: Vec<(u32, Func)> = Vec::new();
        while entries.len() > 0
            invariant
                rebuilt@.len() + entries@.len() == all.len(),
                entries@ == all.skip(rebuilt@.len() as int),
                crate::ir::entries_view(all) == m4.funcs,
                forall|j: int|
                    0 <= j < rebuilt@.len() ==> #[trigger] crate::ir::entries_view(rebuilt@)[j]
                        == rewrite_all(
                        m4.funcs,
                        get_next_pub_input_func_idx.0,
                        store_pub_output_func_idx.0,
                    )[j],
            decreases entries@.len(),
        {
            let ghost k = rebuilt@.len() as int;
            let (idx, mut f) = entries.remove(0);
            proof {
                assert(all.skip(k).first() == all[k]);
                assert(entries@ =~= all.skip(k + 1));
                assert(crate::ir::entries_view(all)[k] == (all[k].0, all[k].1@));
            }
            rewrite_func_io(&mut f, get_next_pub_input_func_idx, store_pub_output_func_idx);
            let ghost rebuilt0 = rebuilt@;
            rebuilt.push((idx, f));
            proof {
                let gi = get_next_pub_input_func_idx.0;
                let si = store_pub_output_func_idx.0;
                assert(crate::ir::entries_view(rebuilt@) =~= crate::ir::entries_view(
                    rebuilt0,
                ).push((idx, f@)));
                assert(f@ == rewrite_fv(all[k].1@, gi, si));
                assert(m4.funcs[k] == (all[k].0, all[k].1@));
                assert(rewrite_all(m4.funcs, gi, si)[k] == (
                    m4.funcs[k].0,
                    rewrite_fv(m4.funcs[k].1, gi, si),
                ));
                assert(crate::ir::entries_view(rebuilt@)[k] == (idx, f@));
                assert forall|j: int|
                    0 <= j < rebuilt@.len() implies #[trigger] crate::ir::entries_view(
                    rebuilt@,
                )[j] == rewrite_all(m4.funcs, gi, si)[j] by {
                    if j < k {
                        assert(crate::ir::entries_view(rebuilt@)[j] == crate::ir::entries_view(
                            rebuilt0,
                        )[j]);
                    }
                }
            }
        }
        let ghost m5 = ModuleView {
            funcs: rewrite_all(m4.funcs, get_next_pub_input_func_idx.0, store_pub_output_func_idx.0),
            ..m4
        };
        proof {
            assert(crate::ir::entries_view(rebuilt@) =~= m5.funcs);
            assert forall|i0: int, j0: int|
                0 <= i0 < j0 < rebuilt@.len() implies rebuilt@[i0].0 != rebuilt@[j0].0 by {
                assert(m5.funcs[i0].0 == m4.funcs[i0].0 && m5.funcs[j0].0 == m4.funcs[j0].0);
                assert(crate::ir::entries_view(rebuilt@)[i0].0 == rebuilt@[i0].0);
                assert(crate::ir::entries_view(rebuilt@)[j0].0 == rebuilt@[j0].0);
            }
        }
        module.put_functions(rebuilt);
        proof {
            assert(module@ == m5);
            assert forall|i0: int, j0: int|
                0 <= i0 < j0 < m5.funcs.len() implies m5.funcs[i0].0 != m5.funcs[j0].0 by {
                assert(m5.funcs[i0].0 == m4.funcs[i0].0 && m5.funcs[j0].0 == m4.funcs[j0].0);
            }
            assert forall|i0: int|
                0 <= i0 < m5.funcs.len() implies #[trigger] m5.funcs[i0].0 < m5.next by {
                assert(m5.funcs[i0].0 == m4.funcs[i0].0);
            }
        }

        // Rewire the start function: save first, reload last.
        let mut before: Vec<Inst> = Vec::new();
        before.push(Inst::Call { func_idx: save_pub_inputs_func_idx });
        let mut after: Vec<Inst> = Vec::new();
        after.push(Inst::Call { func_idx: load_pub_outputs_on_stack_func_idx });
        after.push(Inst::End);
        proof {
            assert(before@ =~= seq![Inst::Call { func_idx: save_pub_inputs_func_idx }]);
            assert(after@ =~= seq![
                Inst::Call { func_idx: load_pub_outputs_on_stack_func_idx },
                Inst::End,
            ]);
        }
        module.wrap_start_func("start_with_miden_io_persistent".to_owned(), before, after);
        proof {
            assert(module@.funcs =~= wrapped(
                m5,
                "start_with_miden_io_persistent"@,
                seq![Inst::Call { func_idx: save_pub_inputs_func_idx }],
                seq![Inst::Call { func_idx: load_pub_outputs_on_stack_func_idx }, Inst::End],
            ).funcs);
            assert(module@ == spec_lowered(
                m_in,
                self.pub_inputs_start_address,
                self.pub_outputs_start_address,
            ));
        }
        Ok(())
    }

    fn run_func_pass(&self, func: &mut Func) -> (r: Result<(), PassError>)
        ensures
            r == Err::<(), PassError>(PassError::NotApplicable),
            final(func)@ == old(func)@,
    {
        Err(PassError::NotApplicable)
    }
}


/// True when some instruction of the body is an abstract public-I/O
/// instruction.
pub open spec fn has_abstract_pub_io(body: Seq<Inst>) -> bool {
    exists|i: int|
        0 <= i < body.len() && (body[i] is PubInputRead || body[i] is PubOutputWrite)
}

/// After the lowering pass runs, no `PubInputRead` or `PubOutputWrite`
/// remains in any function body of the module: user functions are rewritten,
/// and the synthesized procedures and the new start wrapper never carry one.
pub proof fn lemma_lowering_clears_abstract_io(m: ModuleView, in_addr: i32, out_addr: i32)
    ensures
        forall|j: int|
            0 <= j < spec_lowered(m, in_addr, out_addr).funcs.len() ==> !has_abstract_pub_io(
                #[trigger] spec_lowered(m, in_addr, out_addr).funcs[j].1.body,
            ),
{
    let lm = spec_lowered(m, in_addr, out_addr);
    assert forall|j: int| 0 <= j < lm.funcs.len() implies !has_abstract_pub_io(
        #[trigger] lm.funcs[j].1.body,
    ) by {
        let g_in = m.globals.len() as u32;
        let g_out = (m.globals.len() + 1) as u32;
        let m0 = ModuleView { globals: m.globals.push(Ty::I32).push(Ty::I32), ..m };
        let s1 = locate_or_push(
            m0,
            "save_pub_inputs"@,
            save_pub_inputs_fv(g_in, g_out, in_addr, out_addr),
        );
        let s2 = locate_or_push(s1.0, "omni_miden_pub_input"@, get_next_pub_input_fv(g_in));
        let s3 = locate_or_push(s2.0, "omni_miden_pub_output"@, store_pub_output_fv(g_out));
        let s4 = locate_or_push(
            s3.0,
            "load_pub_outputs_on_stack"@,
            load_pub_outputs_fv(g_out, out_addr),
        );
        let m5 = ModuleView { funcs: rewrite_all(s4.0.funcs, s2.1, s3.1), ..s4.0 };
        if j < m5.funcs.len() {
            let body = m5.funcs[j].1.body;
            assert(body == s4.0.funcs[j].1.body.map_values(
                |i0: Inst| rewrite_inst(i0, s2.1, s3.1),
            ));
            assert forall|i: int|
                0 <= i < body.len() implies !(body[i] is PubInputRead) && !(body[
            i] is PubOutputWrite) by {
                assert(body[i] == rewrite_inst(s4.0.funcs[j].1.body[i], s2.1, s3.1));
            }
        } else {
            let body = lm.funcs[j].1.body;
            assert(body == seq![Inst::Call { func_idx: FuncIndex(s1.1) }] + seq![
                Inst::Call { func_idx: FuncIndex(m5.start) },
            ] + seq![Inst::Call { func_idx: FuncIndex(s4.1) }, Inst::End]);
            assert forall|i: int|
                0 <= i < body.len() implies !(body[i] is PubInputRead) && !(body[
            i] is PubOutputWrite) by {
                assert(body.len() == 4);
                if i == 0 {
                    assert(body[0] == Inst::Call { func_idx: FuncIndex(s1.1) });
                } else if i == 1 {
                    assert(body[1] == Inst::Call { func_idx: FuncIndex(m5.start) });
                } else if i == 2 {
                    assert(body[2] == Inst::Call { func_idx: FuncIndex(s4.1) });
                } else {
                    assert(body[3] == Inst::End);
                }
            }
        }
    }
}

/// Pushing one entry extends a name lookup: a hit in the old entries stays
/// the first hit, and otherwise the new entry answers exactly when it
/// carries the name.
proof fn lemma_find_name_push(funcs: Seq<(u32, FuncView)>, e: (u32, FuncView), name: Seq<char>)
    ensures
        find_name(funcs.push(e), name) == (match find_name(funcs, name) {
            Some(i) => Some(i),
            None => if e.1.name == name {
                Some(e.0)
            } else {
                None::<u32>
            },
        }),
    decreases funcs.len(),
{
    if funcs.len() == 0 {
        assert(funcs.push(e).len() == 1);
        assert(funcs.push(e).first() == e);
        assert(funcs.push(e).drop_first() =~= Seq::<(u32, FuncView)>::empty());
        assert(find_name(funcs, name) is None);
        if e.1.name == name {
            assert(find_name(funcs.push(e), name) == Some(e.0));
        } else {
            assert(find_name(funcs.push(e).drop_first(), name) is None);
            assert(find_name(funcs.push(e), name) is None);
        }
    } else {
        assert(funcs.push(e).first() == funcs.first());
        assert(funcs.push(e).drop_first() =~= funcs.drop_first().push(e));
        lemma_find_name_push(funcs.drop_first(), e, name);
        if funcs.first().1.name == name {
            assert(find_name(funcs, name) == Some(funcs.first().0));
            assert(find_name(funcs.push(e), name) == Some(funcs.first().0));
        } else {
            assert(find_name(funcs, name) == find_name(funcs.drop_first(), name));
            assert(find_name(funcs.push(e), name) == find_name(
                funcs.drop_first().push(e),
                name,
            ));
        }
    }
}

/// The lowering pass synthesizes its auxiliary procedures under the fixed
/// reserved names with fixed signatures. On any two modules that are equal
/// and define none of the reserved names — two independent instances derived
/// from the same source — the pass, being a function of the module and the
/// two addresses alone, produces identical auxiliary procedures; this lemma
/// shows each of the four present in the lowered module with its exact
/// reserved name, signature and body.
pub proof fn lemma_lowering_aux_procedures(m: ModuleView, in_addr: i32, out_addr: i32)
    requires
        find_name(m.funcs, "save_pub_inputs"@) is None,
        find_name(m.funcs, "omni_miden_pub_input"@) is None,
        find_name(m.funcs, "omni_miden_pub_output"@) is None,
        find_name(m.funcs, "load_pub_outputs_on_stack"@) is None,
    ensures
        ({
            let lm = spec_lowered(m, in_addr, out_addr);
            let g_in = m.globals.len() as u32;
            let g_out = (m.globals.len() + 1) as u32;
            &&& exists|j: int|
                0 <= j < lm.funcs.len() && #[trigger] lm.funcs[j].1 == save_pub_inputs_fv(
                    g_in,
                    g_out,
                    in_addr,
                    out_addr,
                )
            &&& exists|j: int|
                0 <= j < lm.funcs.len() && #[trigger] lm.funcs[j].1 == get_next_pub_input_fv(g_in)
            &&& exists|j: int|
                0 <= j < lm.funcs.len() && #[trigger] lm.funcs[j].1 == store_pub_output_fv(g_out)
            &&& exists|j: int|
                0 <= j < lm.funcs.len() && #[trigger] lm.funcs[j].1 == load_pub_outputs_fv(
                    g_out,
                    out_addr,
                )
        }),
{
    reveal_strlit("save_pub_inputs");
    reveal_strlit("omni_miden_pub_input");
    reveal_strlit("omni_miden_pub_output");
    reveal_strlit("load_pub_outputs_on_stack");
    let g_in = m.globals.len() as u32;
    let g_out = (m.globals.len() + 1) as u32;
    let save_fv = save_pub_inputs_fv(g_in, g_out, in_addr, out_addr);
    let get_fv = get_next_pub_input_fv(g_in);
    let store_fv = store_pub_output_fv(g_out);
    let load_fv = load_pub_outputs_fv(g_out, out_addr);
    // the reserved names have pairwise different lengths
    assert(save_fv.name.len() == 15);
    assert(get_fv.name.len() == 20);
    assert(store_fv.name.len() == 21);
    assert(load_fv.name.len() == 25);
    let m0 = ModuleView { globals: m.globals.push(Ty::I32).push(Ty::I32), ..m };
    let s1 = locate_or_push(m0, "save_pub_inputs"@, save_fv);
    let m1 = m0.spec_push(save_fv);
    assert(s1.0 == m1);
    lemma_find_name_push(m0.funcs, (m0.next_free() as u32, save_fv), "omni_miden_pub_input"@);
    let s2 = locate_or_push(s1.0, "omni_miden_pub_input"@, get_fv);
    let m2 = m1.spec_push(get_fv);
    assert(s2.0 == m2);
    lemma_find_name_push(m0.funcs, (m0.next_free() as u32, save_fv), "omni_miden_pub_output"@);
    lemma_find_name_push(m1.funcs, (m1.next_free() as u32, get_fv), "omni_miden_pub_output"@);
    let s3 = locate_or_push(s2.0, "omni_miden_pub_output"@, store_fv);
    let m3 = m2.spec_push(store_fv);
    assert(s3.0 == m3);
    lemma_find_name_push(m0.funcs, (m0.next_free() as u32, save_fv), "load_pub_outputs_on_stack"@);
    lemma_find_name_push(m1.funcs, (m1.next_free() as u32, get_fv), "load_pub_outputs_on_stack"@);
    lemma_find_name_push(m2.funcs, (m2.next_free() as u32, store_fv), "load_pub_outputs_on_stack"@);
    let s4 = locate_or_push(s3.0, "load_pub_outputs_on_stack"@, load_fv);
    let m4 = m3.spec_push(load_fv);
    assert(s4.0 == m4);
    let n0 = m0.funcs.len() as int;
    assert(m4.funcs[n0].1 == save_fv);
    assert(m4.funcs[n0 + 1].1 == get_fv);
    assert(m4.funcs[n0 + 2].1 == store_fv);
    assert(m4.funcs[n0 + 3].1 == load_fv);
    // none of the four bodies holds an abstract public-I/O instruction, so
    // the rewrite leaves each untouched
    let m5 = ModuleView { funcs: rewrite_all(s4.0.funcs, s2.1, s3.1), ..s4.0 };
    assert(rewrite_fv(save_fv, s2.1, s3.1).body =~= save_fv.body);
    assert(rewrite_fv(save_fv, s2.1, s3.1) == save_fv);
    assert(rewrite_fv(get_fv, s2.1, s3.1).body =~= get_fv.body);
    assert(rewrite_fv(get_fv, s2.1, s3.1) == get_fv);
    assert(rewrite_fv(store_fv, s2.1, s3.1).body =~= store_fv.body);
    assert(rewrite_fv(store_fv, s2.1, s3.1) == store_fv);
    assert(rewrite_fv(load_fv, s2.1, s3.1).body =~= load_fv.body);
    assert(rewrite_fv(load_fv, s2.1, s3.1) == load_fv);
    assert(m5.funcs[n0].1 == save_fv);
    assert(m5.funcs[n0 + 1].1 == get_fv);
    assert(m5.funcs[n0 + 2].1 == store_fv);
    assert(m5.funcs[n0 + 3].1 == load_fv);
    let lm = spec_lowered(m, in_addr, out_addr);
    assert(lm.funcs[n0].1 == save_fv);
    assert(lm.funcs[n0 + 1].1 == get_fv);
    assert(lm.funcs[n0 + 2].1 == store_fv);
    assert(lm.funcs[n0 + 3].1 == load_fv);
}

/// Rewriting abstract I/O to calls changes no entry's key or name, so a
/// name lookup resolves the same before and after.
proof fn lemma_find_name_rewrite(
    funcs: Seq<(u32, FuncView)>,
    get_idx: u32,
    store_idx: u32,
    name: Seq<char>,
)
    ensures
        find_name(rewrite_all(funcs, get_idx, store_idx), name) == find_name(funcs, name),
    decreases funcs.len(),
{
    let rw = rewrite_all(funcs, get_idx, store_idx);
    if funcs.len() == 0 {
        assert(rw.len() == 0);
    } else {
        assert(rw.first() == (funcs.first().0, rewrite_fv(funcs.first().1, get_idx, store_idx)));
        assert(rw.first().1.name == funcs.first().1.name);
        assert(rw.drop_first() =~= rewrite_all(funcs.drop_first(), get_idx, store_idx));
        lemma_find_name_rewrite(funcs.drop_first(), get_idx, store_idx, name);
    }
}

/// Reuse by name: on a module that already defines `save_pub_inputs` (and
/// none of the other reserved names), the pass pushes no second function
/// under that name — exactly four entries are appended, the lookup still
/// resolves to the pre-existing index, and the new start wrapper calls that
/// index.
pub proof fn lemma_lowering_reuses_by_name(m: ModuleView, in_addr: i32, out_addr: i32, k: u32)
    requires
        find_name(m.funcs, "save_pub_inputs"@) == Some(k),
        find_name(m.funcs, "omni_miden_pub_input"@) is None,
        find_name(m.funcs, "omni_miden_pub_output"@) is None,
        find_name(m.funcs, "load_pub_outputs_on_stack"@) is None,
    ensures
        ({
            let lm = spec_lowered(m, in_addr, out_addr);
            &&& lm.funcs.len() == m.funcs.len() + 4
            &&& find_name(lm.funcs, "save_pub_inputs"@) == Some(k)
            &&& forall|j: int|
                m.funcs.len() <= j < lm.funcs.len() ==> #[trigger] lm.funcs[j].1.name
                    != "save_pub_inputs"@
            &&& lm.funcs.last().1.body[0] == (Inst::Call { func_idx: FuncIndex(k) })
        }),
{
    reveal_strlit("save_pub_inputs");
    reveal_strlit("omni_miden_pub_input");
    reveal_strlit("omni_miden_pub_output");
    reveal_strlit("load_pub_outputs_on_stack");
    reveal_strlit("start_with_miden_io_persistent");
    let g_in = m.globals.len() as u32;
    let g_out = (m.globals.len() + 1) as u32;
    let save_fv = save_pub_inputs_fv(g_in, g_out, in_addr, out_addr);
    let get_fv = get_next_pub_input_fv(g_in);
    let store_fv = store_pub_output_fv(g_out);
    let load_fv = load_pub_outputs_fv(g_out, out_addr);
    // the reserved names and the wrapper name have pairwise different lengths
    assert(save_fv.name.len() == 15);
    assert(get_fv.name.len() == 20);
    assert(store_fv.name.len() == 21);
    assert(load_fv.name.len() == 25);
    assert("start_with_miden_io_persistent"@.len() == 30);
    let m0 = ModuleView { globals: m.globals.push(Ty::I32).push(Ty::I32), ..m };
    let s1 = locate_or_push(m0, "save_pub_inputs"@, save_fv);
    assert(s1.0 == m0 && s1.1 == k);
    let m2 = m0.spec_push(get_fv);
    let s2 = locate_or_push(s1.0, "omni_miden_pub_input"@, get_fv);
    assert(s2.0 == m2);
    lemma_find_name_push(m0.funcs, (m0.next_free() as u32, get_fv), "omni_miden_pub_output"@);
    let s3 = locate_or_push(s2.0, "omni_miden_pub_output"@, store_fv);
    let m3 = m2.spec_push(store_fv);
    assert(s3.0 == m3);
    lemma_find_name_push(m0.funcs, (m0.next_free() as u32, get_fv), "load_pub_outputs_on_stack"@);
    lemma_find_name_push(m2.funcs, (m2.next_free() as u32, store_fv), "load_pub_outputs_on_stack"@);
    let s4 = locate_or_push(s3.0, "load_pub_outputs_on_stack"@, load_fv);
    let m4 = m3.spec_push(load_fv);
    assert(s4.0 == m4);
    let n0 = m.funcs.len() as int;
    assert(m4.funcs.len() == n0 + 3);
    assert(m4.funcs[n0].1 == get_fv);
    assert(m4.funcs[n0 + 1].1 == store_fv);
    assert(m4.funcs[n0 + 2].1 == load_fv);
    assert(forall|j: int| 0 <= j < n0 ==> m4.funcs[j] == m.funcs[j]);
    // the lookup still resolves to the pre-existing entry
    lemma_find_name_push(m0.funcs, (m0.next_free() as u32, get_fv), "save_pub_inputs"@);
    lemma_find_name_push(m2.funcs, (m2.next_free() as u32, store_fv), "save_pub_inputs"@);
    lemma_find_name_push(m3.funcs, (m3.next_free() as u32, load_fv), "save_pub_inputs"@);
    assert(find_name(m4.funcs, "save_pub_inputs"@) == Some(k));
    let m5 = ModuleView { funcs: rewrite_all(s4.0.funcs, s2.1, s3.1), ..s4.0 };
    lemma_find_name_rewrite(m4.funcs, s2.1, s3.1, "save_pub_inputs"@);
    assert(find_name(m5.funcs, "save_pub_inputs"@) == Some(k));
    let lm = spec_lowered(m, in_addr, out_addr);
    let wrap_fv = lm.funcs.last().1;
    assert(lm.funcs == m5.funcs.push((m5.next_free() as u32, wrap_fv)));
    lemma_find_name_push(m5.funcs, (m5.next_free() as u32, wrap_fv), "save_pub_inputs"@);
    assert(wrap_fv.name == "start_with_miden_io_persistent"@);
    assert(find_name(lm.funcs, "save_pub_inputs"@) == Some(k));
    // none of the four appended entries bears the reserved name
    assert(lm.funcs.len() == n0 + 4);
    assert forall|j: int|
        n0 <= j < lm.funcs.len() implies #[trigger] lm.funcs[j].1.name
        != "save_pub_inputs"@ by {
        if j < n0 + 3 {
            assert(m5.funcs[j].1.name == m4.funcs[j].1.name);
        }
    }
    // the wrapper calls the pre-existing procedure
    assert(wrap_fv.body == seq![Inst::Call { func_idx: FuncIndex(s1.1) }] + seq![
        Inst::Call { func_idx: FuncIndex(m5.start) },
    ] + seq![Inst::Call { func_idx: FuncIndex(s4.1) }, Inst::End]);
    assert(wrap_fv.body[0] == (Inst::Call { func_idx: FuncIndex(k) }));
}

/// The input cursor after `n` inputs have been saved: exactly `n` widths
/// below its start address.
pub open spec fn input_cursor_after(start: int, n: nat) -> int {
    start - n * (io_width() as int)
}

/// The output cursor after `n` outputs have been staged: exactly `n` widths
/// above its start address.
pub open spec fn output_cursor_after(start: int, n: nat) -> int {
    start + n * (io_width() as int)
}

/// Width arithmetic of the lowering pass: every address delta in the
/// synthesized bodies is the configured width itself, and after `n` loop
/// iterations, for any `n`, each cursor sits an exact multiple of the width
/// away from its start address — no off-by-one drift — so the staged-output
/// count recomputed from the cursor is exact.
pub proof fn lemma_width_arithmetic(
    start: int,
    n: nat,
    g_in: u32,
    g_out: u32,
    in_addr: i32,
    out_addr: i32,
)
    ensures
        save_pub_inputs_body(g_in, g_out, in_addr, out_addr)[11] == (Inst::I32Const {
            value: io_width(),
        }),
        get_next_pub_input_body(g_in)[1] == (Inst::I32Const { value: io_width() }),
        store_pub_output_body(g_out)[4] == (Inst::I32Const { value: io_width() }),
        load_pub_outputs_body(g_out, out_addr)[10] == (Inst::I32Const { value: io_width() }),
        start - input_cursor_after(start, n) == n * (io_width() as int),
        (start - input_cursor_after(start, n)) % (io_width() as int) == 0,
        output_cursor_after(start, n) - start == n * (io_width() as int),
        (output_cursor_after(start, n) - start) % (io_width() as int) == 0,
        (output_cursor_after(start, n) - start) / (io_width() as int) == n,
{
    let w = io_width() as int;
    vstd::arithmetic::div_mod::lemma_mod_multiples_basic(n as int, w);
    vstd::arithmetic::div_mod::lemma_div_multiples_vanish(n as int, w);
    assert(n * w == w * (n as int)) by (nonlinear_arith);
}

} // verus!
