//! The module: an insertion-ordered mapping from function index to function,
//! a designated start function, and an ordered list of global variable types.

use vstd::prelude::*;

use indexmap::IndexMap;

use crate::func::Func;
use crate::func::FuncView;
use crate::imap::entries_contain_key;
use crate::imap::fn_entries;
use crate::imap::im_drain;
use crate::imap::im_get;
use crate::imap::im_get_at;
use crate::imap::im_insert;
use crate::imap::im_len;
use crate::imap::im_new;
use crate::imap::im_swap_remove;
use crate::inst::Inst;
use crate::ty::Ty;
use crate::types::FuncIndex;
use crate::types::GlobalIndex;

verus! {

/// The key-value view of exec map entries.
pub open spec fn entries_view(e: Seq<(u32, Func)>) -> Seq<(u32, FuncView)> {
    e.map_values(|p: (u32, Func)| (p.0, p.1@))
}

/// The mathematical value of a [`Module`]: the function entries in insertion
/// order, the start index, the global slot types, and the index allocation
/// counter.
pub struct ModuleView {
    pub funcs: Seq<(u32, FuncView)>,
    pub start: u32,
    pub globals: Seq<Ty>,
    pub next: u32,
}

impl ModuleView {
    /// Well-formedness: no key occurs twice, and every key lies strictly
    /// below the allocation counter — so the counter has never been handed
    /// out and never will be twice.
    pub open spec fn wf(self) -> bool {
        &&& forall|i: int, j: int|
            0 <= i < j < self.funcs.len() ==> self.funcs[i].0 != self.funcs[j].0
        &&& forall|i: int| 0 <= i < self.funcs.len() ==> #[trigger] self.funcs[i].0 < self.next
    }

    /// True when some entry carries the key.
    pub open spec fn contains_key(self, k: u32) -> bool {
        exists|j: int| 0 <= j < self.funcs.len() && self.funcs[j].0 == k
    }

    /// The position of the entry carrying the key.
    pub open spec fn key_index(self, k: u32) -> int {
        choose|j: int| 0 <= j < self.funcs.len() && self.funcs[j].0 == k
    }

    /// The function stored under the key.
    pub open spec fn func_at(self, k: u32) -> FuncView {
        self.funcs[self.key_index(k)].1
    }

    /// The index a pushed function receives: a high-water counter, one past
    /// the largest index the module has ever held. A removed index stays
    /// retired — the counter never moves backwards — so the handle space
    /// grows monotonically rather than staying compact.
    pub open spec fn next_free(self) -> int {
        self.next as int
    }

    /// The state after pushing a function: the new entry is appended under
    /// the allocation counter, and the counter advances.
    pub open spec fn spec_push(self, f: FuncView) -> ModuleView {
        ModuleView {
            funcs: self.funcs.push((self.next, f)),
            next: (self.next + 1) as u32,
            ..self
        }
    }
}

/// The program representation owned by one pipeline stage at a time: an
/// insertion-ordered function map, the designated start function index, the
/// ordered global slot types, and a monotone index-allocation counter that
/// keeps retired indices from ever being handed out again. The start index
/// must always name a live entry; the mutation API requires that rather than
/// checking it defensively.
#[derive(Debug)]
pub struct Module {
    functions: IndexMap<u32, Func>,
    pub start_func_idx: FuncIndex,
    globals: Vec<Ty>,
    next_idx: u32,
}

impl View for Module {
    type V = ModuleView;

    closed spec fn view(&self) -> ModuleView {
        ModuleView {
            funcs: entries_view(fn_entries(self.functions)),
            start: self.start_func_idx.0,
            globals: self.globals@,
            next: self.next_idx,
        }
    }
}

impl Module {
    /// Builds a module from the given functions, numbering them 0, 1, 2, ...
    /// in order. The start index is taken on trust: callers must pass one
    /// that names a function when they later mutate through it.
    pub fn new(functions: Vec<Func>, start_func_idx: FuncIndex, globals: Vec<Ty>) -> (r: Module)
        requires
            functions@.len() <= u32::MAX,
        ensures
            r@.wf(),
            r@.funcs.len() == functions@.len(),
            forall|i: int|
                0 <= i < functions@.len() ==> r@.funcs[i] == (i as u32, functions@[i]@),
            r@.start == start_func_idx.0,
            r@.globals == globals@,
            r@.next == functions@.len(),
    {
        let n_funcs = functions.len();
        let ghost all = functions@;
        let mut rest = functions;
        let mut map = im_new();
        let mut i: u32 = 0;
        proof {
            assert(entries_view(fn_entries(map)) =~= Seq::<(u32, FuncView)>::empty());
        }
        while rest.len() > 0
            invariant
                i + rest@.len() == all.len(),
                all.len() <= u32::MAX,
                rest@ == all.skip(i as int),
                entries_view(fn_entries(map)).len() == i,
                forall|j: int|
                    0 <= j < i ==> entries_view(fn_entries(map))[j] == (j as u32, all[j]@),
            decreases rest@.len(),
        {
            let f = rest.remove(0);
            let ghost before = fn_entries(map);
            proof {
                if entries_contain_key(before, i) {
                    let j = choose|j: int| 0 <= j < before.len() && before[j].0 == i;
                    assert(entries_view(before)[j].0 == i);
                }
            }
            im_insert(&mut map, i, f);
            proof {
                assert(entries_view(fn_entries(map)) =~= entries_view(before).push((i, f@)));
                assert(rest@ =~= all.skip(i + 1));
            }
            i = i + 1;
        }
        let r = Module { functions: map, start_func_idx, globals, next_idx: n_funcs as u32 };
        proof {
            assert(r@.funcs.len() == all.len());
        }
        r
    }

    /// Looks up a function by index.
    pub fn function(&self, idx: &FuncIndex) -> (r: Option<&Func>)
        requires
            self@.wf(),
        ensures
            match r {
                Some(f) => self@.contains_key(idx.0) && f@ == self@.func_at(idx.0),
                None => !self@.contains_key(idx.0),
            },
    {
        let r = im_get(&self.functions, idx.0);
        proof {
            let e = fn_entries(self.functions);
            if r is Some {
                let j = choose|j: int| 0 <= j < e.len() && e[j].0 == idx.0 && *r.unwrap() == e[j].1;
                assert(self@.funcs[j].0 == idx.0);
                let ki = self@.key_index(idx.0);
                assert(self@.funcs[ki].0 == idx.0);
                assert(ki == j);
            } else {
                if self@.contains_key(idx.0) {
                    let j = self@.key_index(idx.0);
                    assert(e[j].0 == idx.0);
                }
            }
        }
        r
    }

    /// The index the next pushed function will receive: the allocation
    /// counter, one past the largest index the module has ever held, so a
    /// retired index never comes back.
    pub fn next_free_function_idx(&self) -> (r: FuncIndex)
        ensures
            r.0 == self@.next_free(),
    {
        FuncIndex(self.next_idx)
    }

    /// Assigns a fresh index — the allocation counter — stores the function
    /// under it, advances the counter, and returns it. The counter sits
    /// strictly above every index the module has ever held and no operation
    /// lowers it, so indices returned by successive pushes are strictly
    /// increasing and an index is never handed out twice, whatever removals
    /// come in between.
    pub fn push_function(&mut self, func: Func) -> (r: FuncIndex)
        requires
            old(self)@.wf(),
            old(self)@.next < u32::MAX,
        ensures
            final(self)@ == old(self)@.spec_push(func@),
            final(self)@.wf(),
            r.0 == old(self)@.next_free(),
            !old(self)@.contains_key(r.0),
            forall|j: int| 0 <= j < old(self)@.funcs.len() ==> old(self)@.funcs[j].0 < r.0,
    {
        let idx = self.next_free_function_idx();
        let ghost before = fn_entries(self.functions);
        proof {
            if entries_contain_key(before, idx.0) {
                let j = choose|j: int| 0 <= j < before.len() && before[j].0 == idx.0;
                assert(self@.funcs[j].0 == idx.0);
            }
        }
        im_insert(&mut self.functions, idx.0, func);
        self.next_idx = self.next_idx + 1;
        proof {
            assert(entries_view(fn_entries(self.functions)) =~= entries_view(before).push(
                (idx.0, func@),
            ));
            assert(forall|i: int, j: int|
                0 <= i < j < self@.funcs.len() ==> self@.funcs[i].0 != self@.funcs[j].0);
            assert(forall|i: int|
                0 <= i < self@.funcs.len() ==> #[trigger] self@.funcs[i].0 < self@.next);
        }
        idx
    }

    /// Stores the function under the given index: an existing index keeps its
    /// place in the order and only its function is replaced; a new index is
    /// appended, last in order, and the allocation counter moves past it so
    /// it is never handed out again.
    pub fn set_function(&mut self, idx: FuncIndex, func: Func)
        requires
            old(self)@.wf(),
            idx.0 < u32::MAX,
        ensures
            final(self)@.wf(),
            final(self)@.start == old(self)@.start,
            final(self)@.globals == old(self)@.globals,
            final(self)@.next == (if idx.0 >= old(self)@.next {
                (idx.0 + 1) as u32
            } else {
                old(self)@.next
            }),
            if old(self)@.contains_key(idx.0) {
                final(self)@.funcs == Seq::new(
                    old(self)@.funcs.len(),
                    |j: int|
                        if old(self)@.funcs[j].0 == idx.0 {
                            (idx.0, func@)
                        } else {
                            old(self)@.funcs[j]
                        },
                )
            } else {
                final(self)@.funcs == old(self)@.funcs.push((idx.0, func@))
            },
    {
        let ghost before = fn_entries(self.functions);
        let ghost mv = self@;
        proof {
            if entries_contain_key(before, idx.0) {
                let j = choose|j: int| 0 <= j < before.len() && before[j].0 == idx.0;
                assert(mv.funcs[j].0 == idx.0);
            } else {
                if mv.contains_key(idx.0) {
                    let j = mv.key_index(idx.0);
                    assert(before[j].0 == idx.0);
                }
            }
        }
        im_insert(&mut self.functions, idx.0, func);
        if idx.0 >= self.next_idx {
            self.next_idx = idx.0 + 1;
        }
        proof {
            if mv.contains_key(idx.0) {
                assert(entries_view(fn_entries(self.functions)) =~= Seq::new(
                    mv.funcs.len(),
                    |j: int|
                        if mv.funcs[j].0 == idx.0 {
                            (idx.0, func@)
                        } else {
                            mv.funcs[j]
                        },
                ));
            } else {
                assert(entries_view(fn_entries(self.functions)) =~= mv.funcs.push(
                    (idx.0, func@),
                ));
            }
            assert(forall|i: int|
                0 <= i < self@.funcs.len() ==> #[trigger] self@.funcs[i].0 < self@.next);
        }
    }

    /// Removes the function stored under the index, if any, by swapping the
    /// last entry of the order into its place. The index itself is retired
    /// for good: the allocation counter stays where it is, so no later push
    /// ever returns it again.
    pub fn remove_function(&mut self, idx: &FuncIndex)
        requires
            old(self)@.wf(),
        ensures
            final(self)@.wf(),
            final(self)@.start == old(self)@.start,
            final(self)@.globals == old(self)@.globals,
            final(self)@.next == old(self)@.next,
            !final(self)@.contains_key(idx.0),
            if old(self)@.contains_key(idx.0) {
                exists|p: int|
                    0 <= p < old(self)@.funcs.len() && old(self)@.funcs[p].0 == idx.0
                        && final(self)@.funcs == old(self)@.funcs.update(
                        p,
                        old(self)@.funcs.last(),
                    ).drop_last()
            } else {
                final(self)@.funcs == old(self)@.funcs
            },
    {
        let ghost before = fn_entries(self.functions);
        let ghost mv = self@;
        proof {
            if entries_contain_key(before, idx.0) {
                let j = choose|j: int| 0 <= j < before.len() && before[j].0 == idx.0;
                assert(mv.funcs[j].0 == idx.0);
            } else {
                if mv.contains_key(idx.0) {
                    let j = mv.key_index(idx.0);
                    assert(before[j].0 == idx.0);
                }
            }
        }
        im_swap_remove(&mut self.functions, idx.0);
        proof {
            if mv.contains_key(idx.0) {
                let p = choose|p: int|
                    0 <= p < before.len() && before[p].0 == idx.0 && fn_entries(self.functions)
                        == before.update(p, before.last()).drop_last();
                let nf = mv.funcs.update(p, mv.funcs.last()).drop_last();
                assert(entries_view(fn_entries(self.functions)) =~= nf);
                assert(mv.funcs[p].0 == idx.0);
                assert forall|j: int| 0 <= j < nf.len() implies #[trigger] nf[j].0 != idx.0 by {
                    if j == p {
                        assert(nf[j] == mv.funcs[mv.funcs.len() - 1]);
                        assert(mv.funcs[mv.funcs.len() - 1].0 != mv.funcs[p].0);
                    } else {
                        assert(nf[j] == mv.funcs[j]);
                        assert(mv.funcs[j].0 != mv.funcs[p].0);
                    }
                }
                assert forall|j: int| 0 <= j < nf.len() implies #[trigger] nf[j].0 < mv.next by {
                    if j == p {
                        assert(nf[j] == mv.funcs[mv.funcs.len() - 1]);
                    } else {
                        assert(nf[j] == mv.funcs[j]);
                    }
                }
                assert(!final(self)@.contains_key(idx.0));
            } else {
                assert(entries_view(fn_entries(self.functions)) =~= mv.funcs);
            }
        }
    }

    /// Appends a typed global slot and returns its index. Globals carry no
    /// values; initialization is the lowering passes' responsibility.
    pub fn add_global(&mut self, ty: Ty) -> (r: GlobalIndex)
        requires
            old(self)@.globals.len() < u32::MAX,
        ensures
            final(self)@.globals == old(self)@.globals.push(ty),
            final(self)@.funcs == old(self)@.funcs,
            final(self)@.start == old(self)@.start,
            final(self)@.next == old(self)@.next,
            r.0 == old(self)@.globals.len(),
    {
        self.globals.push(ty);
        GlobalIndex(self.globals.len() as u32 - 1)
    }

    /// The global slot types, in index order.
    pub fn globals(&self) -> (r: &Vec<Ty>)
        ensures
            r@ == self@.globals,
    {
        &self.globals
    }

    /// The number of functions in the module.
    pub fn len(&self) -> (r: usize)
        ensures
            r == self@.funcs.len(),
    {
        im_len(&self.functions)
    }
}

/// The index of the first entry, front to back, whose function carries the
/// name, if any.
pub open spec fn find_name(funcs: Seq<(u32, FuncView)>, name: Seq<char>) -> Option<u32>
    decreases funcs.len(),
{
    if funcs.len() == 0 {
        None
    } else if funcs.first().1.name == name {
        Some(funcs.first().0)
    } else {
        find_name(funcs.drop_first(), name)
    }
}

/// Relies on `str`'s `PartialEq`: string slices are equal exactly when their
/// character sequences are.
#[verifier::external_body]
fn str_eq(a: &str, b: &str) -> (r: bool)
    ensures
        r == (a@ == b@),
{
    a == b
}

impl Module {
    /// Looks up a function index by name, front to back. Name lookup is
    /// linear and assumes, but does not enforce, unique names; duplicates are
    /// a caller error.
    pub fn function_idx_by_name(&self, name: &str) -> (r: Option<FuncIndex>)
        ensures
            match r {
                Some(fi) => find_name(self@.funcs, name@) == Some(fi.0),
                None => find_name(self@.funcs, name@) is None,
            },
    {
        let n = im_len(&self.functions);
        let mut i: usize = 0;
        proof {
            assert(self@.funcs.skip(0) =~= self@.funcs);
        }
        while i < n
            invariant
                n == self@.funcs.len(),
                0 <= i <= n,
                find_name(self@.funcs, name@) == find_name(self@.funcs.skip(i as int), name@),
            decreases n - i,
        {
            let p = im_get_at(&self.functions, i).unwrap();
            let ghost suffix = self@.funcs.skip(i as int);
            proof {
                assert(entries_view(fn_entries(self.functions))[i as int] == suffix.first());
                assert(suffix.drop_first() =~= self@.funcs.skip(i + 1));
            }
            if str_eq(p.1.name(), name) {
                return Some(FuncIndex(p.0));
            }
            i = i + 1;
        }
        proof {
            assert(self@.funcs.skip(n as int) =~= Seq::<(u32, FuncView)>::empty());
        }
        None
    }

    /// Looks up a function by name, front to back. Name lookup is linear and
    /// assumes, but does not enforce, unique names.
    pub fn function_by_name(&self, name: &str) -> (r: Option<&Func>)
        ensures
            match r {
                Some(f) => {
                    &&& f@.name == name@
                    &&& exists|j: int|
                        0 <= j < self@.funcs.len() && self@.funcs[j].1 == f@ && find_name(
                            self@.funcs,
                            name@,
                        ) == Some(self@.funcs[j].0)
                },
                None => find_name(self@.funcs, name@) is None,
            },
    {
        let n = im_len(&self.functions);
        let mut i: usize = 0;
        proof {
            assert(self@.funcs.skip(0) =~= self@.funcs);
        }
        while i < n
            invariant
                n == self@.funcs.len(),
                0 <= i <= n,
                find_name(self@.funcs, name@) == find_name(self@.funcs.skip(i as int), name@),
            decreases n - i,
        {
            let p = im_get_at(&self.functions, i).unwrap();
            let ghost suffix = self@.funcs.skip(i as int);
            proof {
                assert(entries_view(fn_entries(self.functions))[i as int] == suffix.first());
                assert(suffix.drop_first() =~= self@.funcs.skip(i + 1));
            }
            if str_eq(p.1.name(), name) {
                proof {
                    assert(self@.funcs[i as int].1 == p.1@);
                }
                return Some(p.1);
            }
            i = i + 1;
        }
        proof {
            assert(self@.funcs.skip(n as int) =~= Seq::<(u32, FuncView)>::empty());
        }
        None
    }

    /// The functions of the module, in insertion order.
    pub fn functions(&self) -> (r: Vec<&Func>)
        ensures
            r@.len() == self@.funcs.len(),
            forall|i: int| 0 <= i < r@.len() ==> r@[i]@ == self@.funcs[i].1,
    {
        let n = im_len(&self.functions);
        let mut r: Vec<&Func> = Vec::new();
        let mut i: usize = 0;
        while i < n
            invariant
                n == self@.funcs.len(),
                0 <= i <= n,
                r@.len() == i,
                forall|j: int| 0 <= j < i ==> r@[j]@ == self@.funcs[j].1,
            decreases n - i,
        {
            let p = im_get_at(&self.functions, i).unwrap();
            proof {
                assert(entries_view(fn_entries(self.functions))[i as int].1 == p.1@);
            }
            r.push(p.1);
            i = i + 1;
        }
        r
    }

    /// Consumes the module and hands out its functions with their indices,
    /// in insertion order.
    pub fn functions_into_vec(self) -> (r: Vec<(FuncIndex, Func)>)
        ensures
            r@.len() == self@.funcs.len(),
            forall|i: int|
                0 <= i < r@.len() ==> r@[i].0.0 == self@.funcs[i].0 && r@[i].1@
                    == self@.funcs[i].1,
    {
        let ghost mv = self@;
        let mut m = self;
        let mut entries = im_drain(&mut m.functions);
        let ghost all = entries@;
        let mut r: Vec<(FuncIndex, Func)> = Vec::new();
        while entries.len() > 0
            invariant
                r@.len() + entries@.len() == all.len(),
                entries@ == all.skip(r@.len() as int),
                entries_view(all) == mv.funcs,
                forall|i: int|
                    0 <= i < r@.len() ==> r@[i].0.0 == mv.funcs[i].0 && r@[i].1@
                        == mv.funcs[i].1,
            decreases entries@.len(),
        {
            let ghost k = r@.len() as int;
            let (idx, f) = entries.remove(0);
            proof {
                assert(all.skip(k).first() == all[k]);
                assert(entries@ =~= all.skip(k + 1));
                assert(entries_view(all)[k] == (all[k].0, all[k].1@));
            }
            r.push((FuncIndex(idx), f));
        }
        r
    }

    /// Removes and returns all function entries, leaving the module with
    /// none; the inverse of [`Module::put_functions`].
    pub(crate) fn take_functions(&mut self) -> (r: Vec<(u32, Func)>)
        ensures
            entries_view(r@) == old(self)@.funcs,
            final(self)@.funcs == Seq::<(u32, FuncView)>::empty(),
            final(self)@.start == old(self)@.start,
            final(self)@.globals == old(self)@.globals,
            final(self)@.next == old(self)@.next,
    {
        let r = im_drain(&mut self.functions);
        proof {
            assert(entries_view(Seq::<(u32, Func)>::empty()) =~= Seq::<(u32, FuncView)>::empty());
        }
        r
    }

    /// Installs the given entries, in order, as the module's functions. The
    /// module must hold none and the keys must be distinct.
    pub(crate) fn put_functions(&mut self, entries: Vec<(u32, Func)>)
        requires
            old(self)@.funcs.len() == 0,
            forall|i: int, j: int|
                0 <= i < j < entries@.len() ==> entries@[i].0 != entries@[j].0,
        ensures
            final(self)@.funcs == entries_view(entries@),
            final(self)@.start == old(self)@.start,
            final(self)@.globals == old(self)@.globals,
            final(self)@.next == old(self)@.next,
    {
        let ghost all = entries@;
        let mut rest = entries;
        while rest.len() > 0
            invariant
                all.len() == self@.funcs.len() + rest@.len(),
                rest@ == all.skip(self@.funcs.len() as int),
                self@.funcs == entries_view(all.take(self@.funcs.len() as int)),
                forall|i: int, j: int| 0 <= i < j < all.len() ==> all[i].0 != all[j].0,
                self@.start == old(self)@.start,
                self@.globals == old(self)@.globals,
                self@.next == old(self)@.next,
            decreases rest@.len(),
        {
            let ghost k = self@.funcs.len() as int;
            let (idx, f) = rest.remove(0);
            let ghost before = fn_entries(self.functions);
            proof {
                assert(all.skip(k).first() == all[k]);
                assert(rest@ =~= all.skip(k + 1));
                if entries_contain_key(before, idx) {
                    let j = choose|j: int| 0 <= j < before.len() && before[j].0 == idx;
                    assert(entries_view(before)[j].0 == idx);
                    assert(entries_view(all.take(k))[j] == (all[j].0, all[j].1@));
                }
            }
            im_insert(&mut self.functions, idx, f);
            proof {
                assert(entries_view(fn_entries(self.functions)) =~= entries_view(before).push(
                    (idx, f@),
                ));
                assert(entries_view(all.take(k + 1)) =~= entries_view(all.take(k)).push(
                    (all[k].0, all[k].1@),
                ));
            }
        }
        proof {
            assert(all.take(self@.funcs.len() as int) =~= all);
        }
    }

    /// The start function of the module.
    pub fn start_function(&self) -> (r: &Func)
        requires
            self@.wf(),
            self@.contains_key(self@.start),
        ensures
            r@ == self@.func_at(self@.start),
    {
        let r = self.function(&self.start_func_idx);
        r.unwrap()
    }

    /// Adds the function and splices a call to it at the very front of the
    /// start function's body, injecting setup code without touching the rest
    /// of the body.
    pub fn add_prologue_function(&mut self, func: Func) -> (r: FuncIndex)
        requires
            old(self)@.wf(),
            old(self)@.next < u32::MAX,
            old(self)@.contains_key(old(self)@.start),
        ensures
            final(self)@.wf(),
            r.0 == old(self)@.next_free(),
            final(self)@.start == old(self)@.start,
            final(self)@.globals == old(self)@.globals,
            final(self)@.next == old(self)@.next + 1,
            ({
                let pushed = old(self)@.spec_push(func@);
                let si = pushed.key_index(pushed.start);
                final(self)@.funcs == pushed.funcs.update(
                    si,
                    (
                        pushed.start,
                        FuncView {
                            body: seq![Inst::Call { func_idx: FuncIndex(r.0) }]
                                + pushed.funcs[si].1.body,
                            ..pushed.funcs[si].1
                        },
                    ),
                )
            }),
    {
        let prologue_idx = self.push_function(func);
        let ghost pushed = self@;
        let start_idx = self.start_func_idx;
        proof {
            let j = old(self)@.key_index(old(self)@.start);
            assert(pushed.funcs[j].0 == pushed.start);
            assert(pushed.contains_key(pushed.start));
        }
        let start_ref = im_get(&self.functions, start_idx.0);
        let mut start_func = start_ref.unwrap().clone();
        proof {
            let j = choose|j: int|
                0 <= j < fn_entries(self.functions).len() && fn_entries(self.functions)[j].0
                    == start_idx.0 && start_func@ == fn_entries(self.functions)[j].1@;
            assert(pushed.funcs[j].0 == pushed.start);
            assert(j == pushed.key_index(pushed.start));
        }
        start_func.prepend(Inst::Call { func_idx: prologue_idx });
        let ghost before = fn_entries(self.functions);
        let ghost si = pushed.key_index(pushed.start);
        proof {
            assert(entries_view(before)[si].0 == pushed.start);
        }
        im_insert(&mut self.functions, start_idx.0, start_func);
        proof {
            assert(entries_view(fn_entries(self.functions)) =~= pushed.funcs.update(
                si,
                (pushed.start, start_func@),
            ));
            assert forall|i: int, j: int|
                0 <= i < j < final(self)@.funcs.len() implies final(self)@.funcs[i].0
                != final(self)@.funcs[j].0 by {
                assert(final(self)@.funcs[i].0 == pushed.funcs[i].0);
                assert(final(self)@.funcs[j].0 == pushed.funcs[j].0);
            }
            assert forall|i: int|
                0 <= i < final(self)@.funcs.len() implies #[trigger] final(self)@.funcs[i].0
                < final(self)@.next by {
                assert(final(self)@.funcs[i].0 == pushed.funcs[i].0);
            }
        }
        prologue_idx
    }

    /// Builds a brand-new start function whose body is
    /// `before ++ [Call old_start] ++ after`, installs it as the new start,
    /// and leaves the old start function reachable only through that call.
    pub fn wrap_start_func(&mut self, name: String, before: Vec<Inst>, after: Vec<Inst>)
        requires
            old(self)@.wf(),
            old(self)@.next < u32::MAX,
        ensures
            final(self)@.wf(),
            final(self)@.globals == old(self)@.globals,
            final(self)@.start == old(self)@.next_free(),
            final(self)@.next == old(self)@.next + 1,
            !old(self)@.contains_key(final(self)@.start),
            final(self)@.funcs == old(self)@.funcs.push(
                (
                    final(self)@.start,
                    FuncView {
                        name: name@,
                        sig: crate::func::FuncTypeView {
                            params: Seq::<Ty>::empty(),
                            results: Seq::<Ty>::empty(),
                        },
                        locals: Seq::<Ty>::empty(),
                        body: before@ + seq![Inst::Call { func_idx: FuncIndex(old(self)@.start) }]
                            + after@,
                    },
                ),
            ),
    {
        let ghost mv = self@;
        let mut body = before;
        body.push(Inst::Call { func_idx: self.start_func_idx });
        let mut tail = after;
        body.append(&mut tail);
        proof {
            assert(body@ =~= before@ + seq![Inst::Call { func_idx: FuncIndex(mv.start) }]
                + after@);
        }
        let new_start_func = Func::new(name, crate::func::FuncType::void_void(), Vec::new(), body);
        let new_start_func_idx = self.push_function(new_start_func);
        self.start_func_idx = new_start_func_idx;
    }

    /// The index-to-name table used at code generation to resolve calls to
    /// target-addressable procedure names.
    pub fn func_names(&self) -> (r: std::collections::HashMap<u32, String>)
        requires
            self@.wf(),
        ensures
            forall|k: u32| #[trigger] r@.contains_key(k) <==> self@.contains_key(k),
            forall|k: u32|
                self@.contains_key(k) ==> #[trigger] r@[k]@ == self@.func_at(k).name,
    {
        broadcast use vstd::std_specs::hash::group_hash_axioms;

        let n = im_len(&self.functions);
        let mut r: std::collections::HashMap<u32, String> = std::collections::HashMap::new();
        let mut i: usize = 0;
        while i < n
            invariant
                n == self@.funcs.len(),
                0 <= i <= n,
                self@.wf(),
                forall|k: u32| #[trigger]
                    r@.contains_key(k) <==> exists|j: int|
                        0 <= j < i && self@.funcs[j].0 == k,
                forall|j: int|
                    0 <= j < i ==> #[trigger] r@[self@.funcs[j].0]@ == self@.funcs[j].1.name,
            decreases n - i,
        {
            let p = im_get_at(&self.functions, i).unwrap();
            proof {
                assert(entries_view(fn_entries(self.functions))[i as int] == self@.funcs[
                    i as int]);
            }
            r.insert(p.0, p.1.name().to_owned());
            i = i + 1;
            proof {
                assert forall|j: int|
                    0 <= j < i implies #[trigger] r@[self@.funcs[j].0]@
                    == self@.funcs[j].1.name by {
                    if j < i - 1 {
                        assert(self@.funcs[j].0 != self@.funcs[i - 1].0);
                    }
                }
            }
        }
        proof {
            assert forall|k: u32| #[trigger] r@.contains_key(k) <==> self@.contains_key(k) by {}
            assert forall|k: u32| self@.contains_key(k) implies #[trigger] r@[k]@
                == self@.func_at(k).name by {
                let j = self@.key_index(k);
                assert(self@.funcs[j].0 == k);
                assert(r@[self@.funcs[j].0]@ == self@.funcs[j].1.name);
            }
        }
        r
    }
}


impl Module {
    /// Consumes the module and hands out its functions ordered so that every
    /// callee appears before any of its callers, or fails with a cycle
    /// error. Every call must reference a function present in the module;
    /// the producer guarantees that.
    pub fn functions_into_topo_sort(self) -> (r: Result<
        Vec<(FuncIndex, Func)>,
        crate::topo::TopoSortError,
    >)
        requires
            self@.wf(),
            forall|j: int, d: u32|
                0 <= j < self@.funcs.len() && #[trigger] self@.funcs[j].1.deps().contains(d)
                    ==> self@.contains_key(d),
        ensures
            ({
                let es = self@.funcs;
                &&& (r matches Err(c)) == crate::topo::has_cycle(
                    crate::topo::node_set(es),
                    crate::topo::dep_edges(es),
                )
                &&& (r matches Err(c) ==> match c {
                    crate::topo::TopoSortError::Cycle(g) => {
                        &&& crate::topo::blocked_set(
                            crate::topo::ts_nodes(g),
                            crate::topo::node_set(es),
                            crate::topo::dep_edges(es),
                        )
                        &&& crate::topo::ts_edges(g) == crate::topo::edges_within(
                            crate::topo::dep_edges(es),
                            crate::topo::ts_nodes(g),
                        )
                    }
                })
                &&& (r matches Ok(out) ==> {
                    let ov = crate::topo::pairs_view(out@);
                    &&& ov.len() == es.len()
                    &&& forall|i: int, j: int| 0 <= i < j < ov.len() ==> ov[i].0 != ov[j].0
                    &&& forall|q: int|
                        0 <= q < ov.len() ==> crate::topo::from_entries(es, #[trigger] ov[q])
                    &&& forall|i: int|
                        0 <= i < es.len() ==> crate::topo::from_entries(ov, #[trigger] es[i])
                    &&& forall|q: int, d: u32|
                        0 <= q < ov.len() && #[trigger] ov[q].1.deps().contains(d)
                            ==> exists|p: int| 0 <= p < q && ov[p].0 == d
                    &&& ov.map_values(|p: (u32, FuncView)| p.0) == crate::topo::kahn_seq(
                        crate::topo::node_set(es),
                        crate::topo::dep_edges(es),
                    )
                })
            }),
    {
        let ghost mv = self@;
        let v = self.functions_into_vec();
        proof {
            assert(crate::topo::pairs_view(v@) =~= mv.funcs);
            assert forall|j: int, d: u32|
                0 <= j < v@.len() && #[trigger] v@[j].1@.deps().contains(d) implies exists|i: int|
                0 <= i < v@.len() && v@[i].0.0 == d by {
                assert(mv.funcs[j].1.deps().contains(d));
                assert(mv.contains_key(d));
                let i = mv.key_index(d);
                assert(mv.funcs[i].0 == d);
                assert(v@[i].0.0 == d);
            }
            assert forall|i: int, j: int|
                0 <= i < j < v@.len() implies v@[i].0.0 != v@[j].0.0 by {
                assert(mv.funcs[i].0 == v@[i].0.0 && mv.funcs[j].0 == v@[j].0.0);
            }
        }
        let r = crate::topo::topo_sort_functions(v);
        proof {
            assert(crate::topo::pairs_view(v@) == mv.funcs);
        }
        r
    }
}

/// Index monotonicity: a push returns the allocation counter, which every
/// index the module has ever held lies strictly below; pushing advances the
/// counter and no other operation lowers it, so the indices returned by any
/// sequence of pushes are strictly increasing and never repeat, whatever
/// removals or replacements come in between.
pub proof fn lemma_push_indices_increase(m: ModuleView, f1: FuncView, f2: FuncView)
    requires
        m.wf(),
        m.next + 2 <= u32::MAX,
    ensures
        forall|j: int| 0 <= j < m.funcs.len() ==> m.funcs[j].0 < m.next_free(),
        !m.contains_key(m.next),
        m.spec_push(f1).next_free() == m.next_free() + 1,
        m.spec_push(f1).spec_push(f2).next_free() == m.next_free() + 2,
        m.spec_push(f1).wf(),
{
    if m.contains_key(m.next) {
        let j = m.key_index(m.next);
        assert(m.funcs[j].0 == m.next);
    }
    let m1 = m.spec_push(f1);
    assert forall|i: int| 0 <= i < m1.funcs.len() implies #[trigger] m1.funcs[i].0
        < m1.next by {
        if i < m.funcs.len() {
            assert(m1.funcs[i] == m.funcs[i]);
        }
    }
}

/// Removing any function leaves the allocation counter in place: the freed
/// index is retired for good and no later push returns it.
pub proof fn lemma_remove_keeps_next_free(m: ModuleView, p: int)
    requires
        m.wf(),
        0 <= p < m.funcs.len(),
    ensures
        (ModuleView {
            funcs: m.funcs.update(p, m.funcs.last()).drop_last(),
            ..m
        }).next_free() == m.next_free(),
        (ModuleView { funcs: m.funcs.update(p, m.funcs.last()).drop_last(), ..m }).wf(),
{
    let nf = m.funcs.update(p, m.funcs.last()).drop_last();
    assert forall|i: int, j: int| 0 <= i < j < nf.len() implies nf[i].0 != nf[j].0 by {
        let i0: int = if i == p {
            m.funcs.len() - 1
        } else {
            i
        };
        let j0: int = if j == p {
            m.funcs.len() - 1
        } else {
            j
        };
        assert(nf[i] == m.funcs[i0] && nf[j] == m.funcs[j0]);
    }
    assert forall|i: int| 0 <= i < nf.len() implies #[trigger] nf[i].0 < m.next by {
        if i == p {
            assert(nf[i] == m.funcs[m.funcs.len() - 1]);
        } else {
            assert(nf[i] == m.funcs[i]);
        }
    }
}

} // verus!
