//! The code-generation contract: a target is named and compiles a module
//! into a target-specific token stream, dispatching each instruction to a
//! deterministic, fixed emission rule. Every instruction either has a
//! defined, total mapping to target tokens, or the target rejects the module
//! with an explicit coverage error — never partial or guessed code.

use vstd::prelude::*;

use std::collections::HashMap;

use crate::dec::dec_digits;
use crate::dec::dec_int;
use crate::dec::i64_dec_bytes;
use crate::dec::u32_dec_bytes;
use crate::func::FuncView;
use crate::inst::Inst;
use crate::ir::Module;
use crate::ir::ModuleView;
use crate::types::FuncIndex;
use vstd::utf8::encode_utf8;

verus! {

/// A code-generation failure: fatal per module, reported with the offending
/// instruction and function identity, never degraded to a no-op or a
/// best-effort guess.
#[derive(Debug)]
pub enum CodegenError {
    /// The instruction has no defined mapping on the chosen target.
    UnsupportedInstruction { inst: Inst, func_name: String },
    /// A call references a function index absent from the module.
    UnknownFunction { func_idx: FuncIndex, func_name: String },
}

impl CodegenError {
    /// A short description of the error.
    pub fn message(&self) -> (r: &'static str)
        ensures
            self is UnsupportedInstruction ==> r@ == "instruction not supported by this target"@,
            self is UnknownFunction ==> r@ == "call references an unknown function index"@,
    {
        match self {
            CodegenError::UnsupportedInstruction { .. } => {
                "instruction not supported by this target"
            },
            CodegenError::UnknownFunction { .. } => "call references an unknown function index",
        }
    }
}

/// A target: named, and able to compile a module into a byte stream. Each
/// target owns its own total or partial instruction mapping; the contract
/// only fixes that emission is per-instruction and order-preserving, with no
/// side effect beyond appending to the output.
pub trait Target {
    /// What the target demands of a module before compiling it.
    spec fn compile_requires(&self, m: ModuleView) -> bool;

    fn name(&self) -> &str;

    fn compile_module(&self, module: &Module) -> (r: Result<Vec<u8>, CodegenError>)
        requires
            self.compile_requires(module@),
    ;
}

/// The function names of a module, keyed by index.
pub open spec fn names_map(m: ModuleView) -> Map<u32, Seq<char>> {
    Map::new(|k: u32| m.contains_key(k), |k: u32| m.func_at(k).name)
}

/// The instructions the stack-machine target maps to tokens. Stack-shape
/// indices are supported up to the machine's reachable operand depth.
pub open spec fn triton_supported(i: Inst) -> bool {
    match i {
        Inst::Nop => true,
        Inst::End => true,
        Inst::Return => true,
        Inst::Call { .. } => true,
        Inst::I32Const { .. } => true,
        Inst::I64Const { .. } => true,
        Inst::I32Add => true,
        Inst::I64Add => true,
        Inst::I32Mul => true,
        Inst::I64Mul => true,
        Inst::I64Eq => true,
        Inst::Dup { idx } => idx < 16,
        Inst::Swap { idx } => 1 <= idx && idx < 16,
        _ => false,
    }
}

/// The token bytes one instruction emits, resolving calls to symbolic names
/// through the module's index-to-name table.
pub open spec fn triton_inst_bytes(i: Inst, names: Map<u32, Seq<char>>) -> Seq<u8> {
    match i {
        Inst::Nop => encode_utf8("nop\n"@),
        Inst::End => encode_utf8("return\n"@),
        Inst::Return => encode_utf8("return\n"@),
        Inst::Call { func_idx } => encode_utf8("call "@) + encode_utf8(names[func_idx.0])
            + encode_utf8("\n"@),
        Inst::I32Const { value } => encode_utf8("push "@) + dec_int(value as int) + encode_utf8(
            "\n"@,
        ),
        Inst::I64Const { value } => encode_utf8("push "@) + dec_int(value as int) + encode_utf8(
            "\n"@,
        ),
        Inst::I32Add => encode_utf8("add\n"@),
        Inst::I64Add => encode_utf8("add\n"@),
        Inst::I32Mul => encode_utf8("mul\n"@),
        Inst::I64Mul => encode_utf8("mul\n"@),
        Inst::I64Eq => encode_utf8("eq\n"@),
        Inst::Dup { idx } => encode_utf8("dup "@) + dec_digits(idx as nat) + encode_utf8("\n"@),
        Inst::Swap { idx } => encode_utf8("swap "@) + dec_digits(idx as nat) + encode_utf8("\n"@),
        _ => Seq::empty(),
    }
}

/// Whether every instruction of the function has a defined mapping and every
/// call resolves to a live function of the module.
pub open spec fn triton_func_ok(f: FuncView, m: ModuleView) -> bool {
    forall|i: int|
        0 <= i < f.body.len() ==> triton_supported(#[trigger] f.body[i]) && (match f.body[i] {
            Inst::Call { func_idx } => m.contains_key(func_idx.0),
            _ => true,
        })
}

/// The instruction cannot be emitted: it has no defined mapping, or it is a
/// call to an index absent from the module. A call is always a supported
/// shape, so exactly one of the two reasons applies.
pub open spec fn inst_bad(i: Inst, m: ModuleView) -> bool {
    !triton_supported(i) || (match i {
        Inst::Call { func_idx } => !m.contains_key(func_idx.0),
        _ => false,
    })
}

/// Position (j, i) holds the first instruction, in declaration order of the
/// functions and instruction order within each, that cannot be emitted.
pub open spec fn first_offense_at(m: ModuleView, j: int, i: int) -> bool {
    &&& 0 <= j < m.funcs.len()
    &&& 0 <= i < m.funcs[j].1.body.len()
    &&& forall|j2: int| 0 <= j2 < j ==> triton_func_ok(#[trigger] m.funcs[j2].1, m)
    &&& forall|i2: int| 0 <= i2 < i ==> !inst_bad(#[trigger] m.funcs[j].1.body[i2], m)
    &&& inst_bad(m.funcs[j].1.body[i], m)
}

/// The token bytes of one function body, instruction by instruction, in
/// order.
pub open spec fn triton_body_bytes(body: Seq<Inst>, names: Map<u32, Seq<char>>) -> Seq<u8>
    decreases body.len(),
{
    if body.len() == 0 {
        Seq::empty()
    } else {
        triton_body_bytes(body.drop_last(), names) + triton_inst_bytes(body.last(), names)
    }
}

/// The token bytes of whole modules: each function's body in declaration
/// order, concatenated.
pub open spec fn triton_funcs_bytes(
    funcs: Seq<(u32, FuncView)>,
    names: Map<u32, Seq<char>>,
) -> Seq<u8>
    decreases funcs.len(),
{
    if funcs.len() == 0 {
        Seq::empty()
    } else {
        triton_funcs_bytes(funcs.drop_last(), names) + triton_body_bytes(
            funcs.last().1.body,
            names,
        )
    }
}

/// Configuration of the stack-machine target. The instruction mapping is
/// fixed; no knobs are exposed yet.
pub struct TritonTargetConfig {}

impl Default for TritonTargetConfig {
    fn default() -> (r: TritonTargetConfig) {
        TritonTargetConfig {  }
    }
}

/// A code generator for a zkVM that exposes an operand stack and named
/// procedures: each instruction maps to one assembly token line, or the
/// module is rejected.
pub struct TritonTarget {
    config: TritonTargetConfig,
}

impl TritonTarget {
    /// The configuration the target was built with.
    pub closed spec fn spec_config(&self) -> TritonTargetConfig {
        self.config
    }

    pub fn new(config: TritonTargetConfig) -> (r: TritonTarget)
        ensures
            r.spec_config() == config,
    {
        TritonTarget { config }
    }
}

fn triton_supported_exec(i: &Inst) -> (r: bool)
    ensures
        r == triton_supported(*i),
{
    match i {
        Inst::Nop => true,
        Inst::End => true,
        Inst::Return => true,
        Inst::Call { .. } => true,
        Inst::I32Const { .. } => true,
        Inst::I64Const { .. } => true,
        Inst::I32Add => true,
        Inst::I64Add => true,
        Inst::I32Mul => true,
        Inst::I64Mul => true,
        Inst::I64Eq => true,
        Inst::Dup { idx } => *idx < 16,
        Inst::Swap { idx } => 1 <= *idx && *idx < 16,
        _ => false,
    }
}

/// Emits the token bytes of one supported instruction into the output.
fn emit_triton_inst(
    i: &Inst,
    names: &HashMap<u32, String>,
    out: &mut Vec<u8>,
    Ghost(nm): Ghost<Map<u32, Seq<char>>>,
)
    requires
        triton_supported(*i),
        (*i matches Inst::Call { func_idx } ==> names@.contains_key(func_idx.0)),
        forall|k: u32| #[trigger] names@.contains_key(k) ==> nm.contains_key(k) && names@[k]@ == nm[k],
    ensures
        final(out)@ == old(out)@ + triton_inst_bytes(*i, nm),
{
    broadcast use vstd::std_specs::hash::group_hash_axioms;

    let ghost out0 = out@;
    match i {
        Inst::Nop => {
            out.extend_from_slice("nop\n".as_bytes());
        },
        Inst::End => {
            out.extend_from_slice("return\n".as_bytes());
        },
        Inst::Return => {
            out.extend_from_slice("return\n".as_bytes());
        },
        Inst::Call { func_idx } => {
            out.extend_from_slice("call ".as_bytes());
            let name = names.get(&func_idx.0).unwrap();
            out.extend_from_slice(name.as_str().as_bytes());
            out.extend_from_slice("\n".as_bytes());
        },
        Inst::I32Const { value } => {
            out.extend_from_slice("push ".as_bytes());
            let mut d = i64_dec_bytes(*value as i64);
            out.append(&mut d);
            out.extend_from_slice("\n".as_bytes());
        },
        Inst::I64Const { value } => {
            out.extend_from_slice("push ".as_bytes());
            let mut d = i64_dec_bytes(*value);
            out.append(&mut d);
            out.extend_from_slice("\n".as_bytes());
        },
        Inst::I32Add => {
            out.extend_from_slice("add\n".as_bytes());
        },
        Inst::I64Add => {
            out.extend_from_slice("add\n".as_bytes());
        },
        Inst::I32Mul => {
            out.extend_from_slice("mul\n".as_bytes());
        },
        Inst::I64Mul => {
            out.extend_from_slice("mul\n".as_bytes());
        },
        Inst::I64Eq => {
            out.extend_from_slice("eq\n".as_bytes());
        },
        Inst::Dup { idx } => {
            out.extend_from_slice("dup ".as_bytes());
            let mut d = u32_dec_bytes(*idx);
            out.append(&mut d);
            out.extend_from_slice("\n".as_bytes());
        },
        Inst::Swap { idx } => {
            out.extend_from_slice("swap ".as_bytes());
            let mut d = u32_dec_bytes(*idx);
            out.append(&mut d);
            out.extend_from_slice("\n".as_bytes());
        },
        _ => {
            proof {
                assert(false);
            }
        },
    }
    proof {
        assert(out@ =~= out0 + triton_inst_bytes(*i, nm));
    }
}

impl Target for TritonTarget {
    /// The module must be well-formed so that name resolution is a function
    /// of the index.
    open spec fn compile_requires(&self, m: ModuleView) -> bool {
        m.wf()
    }

    fn name(&self) -> (r: &str)
        ensures
            r@ == "triton"@,
    {
        "triton"
    }

    /// Compiles the module function by function, instruction by instruction,
    /// in declaration order: succeeds with the full token stream exactly
    /// when every instruction of every function has a defined mapping and
    /// every call resolves; fails with the offending instruction and
    /// function identity otherwise.
    fn compile_module(&self, module: &Module) -> (r: Result<Vec<u8>, CodegenError>)
        ensures
            (r is Ok) == (forall|j: int|
                0 <= j < module@.funcs.len() ==> triton_func_ok(
                    #[trigger] module@.funcs[j].1,
                    module@,
                )),
            (r matches Ok(bytes) ==> bytes@ == triton_funcs_bytes(
                module@.funcs,
                names_map(module@),
            )),
            (r matches Err(e) ==> exists|j: int, i: int|
                #[trigger] first_offense_at(module@, j, i) && (match e {
                    CodegenError::UnsupportedInstruction { inst, func_name } => {
                        &&& inst == module@.funcs[j].1.body[i]
                        &&& !triton_supported(inst)
                        &&& module@.funcs[j].1.name == func_name@
                    },
                    CodegenError::UnknownFunction { func_idx, func_name } => {
                        &&& module@.funcs[j].1.body[i] == (Inst::Call { func_idx })
                        &&& !module@.contains_key(func_idx.0)
                        &&& module@.funcs[j].1.name == func_name@
                    },
                })),
    {
        broadcast use vstd::std_specs::hash::group_hash_axioms;

        let ghost m = module@;
        let ghost nm = names_map(m);
        let names = module.func_names();
        proof {
            assert forall|k: u32| #[trigger] names@.contains_key(k) implies nm.contains_key(k)
                && names@[k]@ == nm[k] by {
                assert(m.contains_key(k));
            }
        }
        let funcs = module.functions();
        let n = funcs.len();
        let mut out: Vec<u8> = Vec::new();
        let mut j: usize = 0;
        proof {
            assert(out@ =~= triton_funcs_bytes(m.funcs.take(0), nm));
        }
        while j < n
            invariant
                n == m.funcs.len(),
                m == module@,
                nm == names_map(m),
                self.compile_requires(m),
                funcs@.len() == n,
                forall|j0: int| 0 <= j0 < n ==> #[trigger] funcs@[j0]@ == m.funcs[j0].1,
                forall|k: u32| #[trigger]
                    names@.contains_key(k) ==> nm.contains_key(k) && names@[k]@ == nm[k],
                forall|k: u32| #[trigger] nm.contains_key(k) ==> names@.contains_key(k),
                0 <= j <= n,
                forall|j0: int| 0 <= j0 < j ==> triton_func_ok(#[trigger] m.funcs[j0].1, m),
                out@ == triton_funcs_bytes(m.funcs.take(j as int), nm),
            decreases n - j,
        {
            let f = funcs[j];
            let body = f.instructions();
            let bn = body.len();
            let mut i: usize = 0;
            proof {
                assert(triton_body_bytes(m.funcs[j as int].1.body.take(0), nm)
                    =~= Seq::<u8>::empty());
                assert(out@ + triton_body_bytes(m.funcs[j as int].1.body.take(0), nm) =~= out@);
            }
            let ghost out_f = out@;
            while i < bn
                invariant
                    n == m.funcs.len(),
                    m == module@,
                    nm == names_map(m),
                    self.compile_requires(m),
                    0 <= j < n,
                    bn == m.funcs[j as int].1.body.len(),
                    body@ == m.funcs[j as int].1.body,
                    f@ == m.funcs[j as int].1,
                    forall|k: u32| #[trigger]
                        names@.contains_key(k) ==> nm.contains_key(k) && names@[k]@ == nm[k],
                    forall|k: u32| #[trigger] nm.contains_key(k) ==> names@.contains_key(k),
                    0 <= i <= bn,
                    forall|j0: int| 0 <= j0 < j ==> triton_func_ok(#[trigger] m.funcs[j0].1, m),
                    forall|i0: int|
                        0 <= i0 < i ==> triton_supported(#[trigger] body@[i0]) && (match body@[i0] {
                            Inst::Call { func_idx } => m.contains_key(func_idx.0),
                            _ => true,
                        }),
                    out@ == out_f + triton_body_bytes(m.funcs[j as int].1.body.take(i as int), nm),
                decreases bn - i,
            {
                let ins = body[i];
                proof {
                    assert forall|i2: int| 0 <= i2 < i implies !inst_bad(
                        #[trigger] m.funcs[j as int].1.body[i2],
                        m,
                    ) by {
                        assert(triton_supported(body@[i2]));
                    }
                }
                if !triton_supported_exec(&ins) {
                    let err = CodegenError::UnsupportedInstruction {
                        inst: ins,
                        func_name: f.name().to_owned(),
                    };
                    proof {
                        assert(inst_bad(m.funcs[j as int].1.body[i as int], m));
                        assert(first_offense_at(m, j as int, i as int));
                    }
                    return Err(err);
                }
                if let Inst::Call { func_idx } = ins {
                    if !names.contains_key(&func_idx.0) {
                        let err = CodegenError::UnknownFunction {
                            func_idx,
                            func_name: f.name().to_owned(),
                        };
                        proof {
                            if m.contains_key(func_idx.0) {
                                assert(nm.contains_key(func_idx.0));
                                assert(names@.contains_key(func_idx.0));
                            }
                            assert(inst_bad(m.funcs[j as int].1.body[i as int], m));
                            assert(first_offense_at(m, j as int, i as int));
                        }
                        return Err(err);
                    }
                }
                emit_triton_inst(&ins, &names, &mut out, Ghost(nm));
                proof {
                    let b = m.funcs[j as int].1.body;
                    assert(b.take(i + 1).drop_last() =~= b.take(i as int));
                    assert(b.take(i + 1).last() == b[i as int]);
                }
                i = i + 1;
            }
            proof {
                let b = m.funcs[j as int].1.body;
                assert(b.take(bn as int) =~= b);
                assert(m.funcs.take(j + 1).drop_last() =~= m.funcs.take(j as int));
                assert(m.funcs.take(j + 1).last() == m.funcs[j as int]);
                assert(triton_func_ok(m.funcs[j as int].1, m));
            }
            j = j + 1;
        }
        proof {
            assert(m.funcs.take(n as int) =~= m.funcs);
        }
        Ok(out)
    }
}

} // verus!
