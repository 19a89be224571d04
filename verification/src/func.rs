//! A named procedure of the IR: a function type, ordered local declarations,
//! and a flat ordered sequence of instructions.

use vstd::prelude::*;

use crate::inst::Inst;
use crate::ty::Ty;
use crate::types::FuncIndex;

verus! {

/// A function type: ordered parameter types and ordered result types.
#[derive(Debug)]
pub struct FuncType {
    pub params: Vec<Ty>,
    pub results: Vec<Ty>,
}

/// The mathematical value of a [`FuncType`].
pub struct FuncTypeView {
    pub params: Seq<Ty>,
    pub results: Seq<Ty>,
}

impl View for FuncType {
    type V = FuncTypeView;

    open spec fn view(&self) -> FuncTypeView {
        FuncTypeView { params: self.params@, results: self.results@ }
    }
}

impl FuncType {
    /// The type of a procedure with no parameters and no results.
    pub fn void_void() -> (r: FuncType)
        ensures
            r@.params == Seq::<Ty>::empty(),
            r@.results == Seq::<Ty>::empty(),
    {
        FuncType { params: Vec::new(), results: Vec::new() }
    }
}

/// The indices of the functions that a flat instruction sequence calls, in
/// order of occurrence, one entry per `Call` instruction.
pub open spec fn body_deps(body: Seq<Inst>) -> Seq<u32>
    decreases body.len(),
{
    if body.len() == 0 {
        Seq::empty()
    } else {
        body_deps(body.drop_last()) + match body.last() {
            Inst::Call { func_idx } => seq![func_idx.0],
            _ => Seq::empty(),
        }
    }
}

/// The mathematical value of a [`Func`].
pub struct FuncView {
    pub name: Seq<char>,
    pub sig: FuncTypeView,
    pub locals: Seq<Ty>,
    pub body: Seq<Inst>,
}

impl FuncView {
    /// The set of function indices referenced by `Call` instructions in the
    /// body; used only for ordering, not for call-graph analysis.
    pub open spec fn deps(self) -> Set<u32> {
        body_deps(self.body).to_set()
    }
}

/// A named procedure: a function type, an ordered list of local variable
/// types, and a flat ordered instruction sequence. Control-flow instructions
/// are linear markers in that sequence, not a nested tree.
#[derive(Debug)]
pub struct Func {
    name: String,
    sig: FuncType,
    locals: Vec<Ty>,
    ins: Vec<Inst>,
}

impl View for Func {
    type V = FuncView;

    closed spec fn view(&self) -> FuncView {
        FuncView { name: self.name@, sig: self.sig@, locals: self.locals@, body: self.ins@ }
    }
}

impl Clone for FuncType {
    fn clone(&self) -> (r: FuncType)
        ensures
            r@ == self@,
    {
        let params = self.params.clone();
        let results = self.results.clone();
        proof {
            assert(params@ =~= self.params@);
            assert(results@ =~= self.results@);
        }
        FuncType { params, results }
    }
}

impl Clone for Func {
    fn clone(&self) -> (r: Func)
        ensures
            r@ == self@,
    {
        let locals = self.locals.clone();
        let ins = self.ins.clone();
        proof {
            assert(locals@ =~= self.locals@);
            assert(ins@ =~= self.ins@);
        }
        Func { name: self.name.clone(), sig: self.sig.clone(), locals, ins }
    }
}

impl Func {
    pub fn new(name: String, sig: FuncType, locals: Vec<Ty>, ins: Vec<Inst>) -> (r: Func)
        ensures
            r@.name == name@,
            r@.sig == sig@,
            r@.locals == locals@,
            r@.body == ins@,
    {
        Func { name, sig, locals, ins }
    }

    pub fn name(&self) -> (r: &str)
        ensures
            r@ == self@.name,
    {
        self.name.as_str()
    }

    pub fn sig(&self) -> (r: &FuncType)
        ensures
            r@ == self@.sig,
    {
        &self.sig
    }

    pub fn locals(&self) -> (r: &Vec<Ty>)
        ensures
            r@ == self@.locals,
    {
        &self.locals
    }

    pub fn instructions(&self) -> (r: &Vec<Inst>)
        ensures
            r@ == self@.body,
    {
        &self.ins
    }

    /// Replaces the whole instruction sequence, leaving name, type and locals
    /// unchanged.
    pub fn set_instructions(&mut self, ins: Vec<Inst>)
        ensures
            final(self)@ == (FuncView { body: ins@, ..old(self)@ }),
    {
        self.ins = ins;
    }

    /// Splices one instruction at the very front of the body.
    pub fn prepend(&mut self, inst: Inst)
        ensures
            final(self)@ == (FuncView { body: seq![inst] + old(self)@.body, ..old(self)@ }),
    {
        self.ins.insert(0, inst);
        proof {
            assert(seq![inst] + old(self)@.body =~= self.ins@);
        }
    }

    /// The indices referenced by `Call` instructions in the body, in order of
    /// occurrence.
    pub fn dependencies(&self) -> (r: Vec<FuncIndex>)
        ensures
            r@.map_values(|fi: FuncIndex| fi.0) == body_deps(self@.body),
    {
        let mut r: Vec<FuncIndex> = Vec::new();
        let n = self.ins.len();
        proof {
            assert(r@.map_values(|fi: FuncIndex| fi.0) =~= body_deps(self@.body.take(0)));
        }
        for i in 0..n
            invariant
                n == self@.body.len(),
                r@.map_values(|fi: FuncIndex| fi.0) == body_deps(self@.body.take(i as int)),
        {
            let ghost prefix = self@.body.take(i as int);
            if let Inst::Call { func_idx } = self.ins[i] {
                r.push(func_idx);
            }
            proof {
                assert(self@.body.take(i + 1).drop_last() =~= prefix);
                assert(self@.body.take(i + 1).last() == self@.body[i as int]);
                if self@.body[i as int] matches Inst::Call { func_idx } {
                    assert(r@.map_values(|fi: FuncIndex| fi.0) =~= body_deps(
                        self@.body.take(i + 1),
                    ));
                } else {
                    assert(body_deps(self@.body.take(i + 1)) =~= body_deps(prefix));
                }
            }
        }
        proof {
            assert(self@.body.take(n as int) =~= self@.body);
        }
        r
    }
}

} // verus!
