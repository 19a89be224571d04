//! The transformation framework: a pass is polymorphic over two operation
//! granularities, and declares which one it implements. Passes run in a
//! caller-chosen fixed order; no automatic fixpoint iteration and no
//! dependency resolution between passes — ordering correctness is the
//! pipeline configurer's responsibility.

use vstd::prelude::*;

use crate::func::Func;
use crate::func::FuncView;
use crate::ir::Module;
use crate::ir::ModuleView;

verus! {

/// A pass invoked at the wrong granularity signals a pipeline
/// misconfiguration; it is never silently skipped.
#[derive(Clone, Copy, PartialEq, Eq, Structural, Debug)]
pub enum PassError {
    NotApplicable,
}

impl PassError {
    /// A short description of the error.
    pub fn message(&self) -> (r: &'static str)
        ensures
            r@ == "pass invoked at a granularity it does not implement"@,
    {
        "pass invoked at a granularity it does not implement"
    }
}

/// An IR-to-IR transformation. A module-level pass sees the whole module: it
/// can add functions and globals, rewrite any function's instructions and
/// rewrap the start function. A function-level pass sees one function in
/// isolation. A pass implements one granularity and fails with
/// [`PassError::NotApplicable`] on the other.
///
/// Each pass states what it demands of its input as a spec-level
/// precondition; an implementation then strengthens the postcondition of the
/// granularity it supports.
pub trait IrPass {
    /// What the pass demands of a module before it may run on it.
    spec fn mod_pass_requires(&self, m: ModuleView) -> bool;

    /// What the pass demands of a function before it may run on it.
    spec fn func_pass_requires(&self, f: FuncView) -> bool;

    fn run_mod_pass(&self, module: &mut Module) -> (r: Result<(), PassError>)
        requires
            self.mod_pass_requires(old(module)@),
    ;

    fn run_func_pass(&self, func: &mut Func) -> (r: Result<(), PassError>)
        requires
            self.func_pass_requires(old(func)@),
    ;
}

} // verus!
