//! Decisions of a transitive resolution run.
//!
//! A resolution starts from a root module. Each time the compilation of a
//! requested module comes back, `on_result` records it and returns the import
//! paths that were never requested before: exactly those must be compiled next.
//! The run is over when every requested module has come back. Running the
//! compilations (on threads, from files) is the caller's part.

use crate::error::{CompileError, ResolveError};
use crate::ir::{
    lemma_path_lt_irreflexive, lemma_path_lt_total, lemma_path_lt_trans, path_less, path_lt, sorted_by_path, Ast, Import, Module,
};
use crate::resolve::strings_view;
use vstd::prelude::*;

verus! {

/// The module paths that `m` imports, in order; a library imports nothing here.
pub open spec fn import_paths(m: Module) -> Seq<Seq<char>> {
    match m {
        Module::Source { imports, .. } => imports@.map_values(|i: Import| i.module@),
        Module::Lib { .. } => seq![],
    }
}

/// The paths of `imports` that neither `known` nor an earlier one of them holds, in order.
pub open spec fn new_paths(known: Seq<Seq<char>>, imports: Seq<Seq<char>>) -> Seq<Seq<char>>
    decreases imports.len(),
{
    if imports.len() == 0 {
        seq![]
    } else {
        let p = new_paths(known, imports.drop_last());
        if (known + p).contains(imports.last()) {
            p
        } else {
            p.push(imports.last())
        }
    }
}

/// The state of a resolution run.
#[derive(Debug)]
pub struct Resolution {
    /// The module the run started from.
    pub root: String,
    /// Every path ever requested, in the order of discovery.
    pub requested: Vec<String>,
    /// The modules compiled so far, under the paths they were requested by.
    pub modules: Vec<(String, Module)>,
}

/// What to do after a compilation came back.
#[derive(Debug)]
pub enum Step {
    /// Compile these modules, none of which was requested before.
    Request(Vec<String>),
    /// Stop the run: a module failed.
    Abort(ResolveError),
}

fn contains(v: &Vec<String>, s: &String) -> (r: bool)
    ensures
        r == strings_view(v@).contains(s@),
{
    let mut i: usize = 0;
    while i < v.len()
        invariant
            i <= v@.len(),
            forall|j: int| 0 <= j < i ==> v@[j]@ != s@,
        decreases v@.len() - i,
    {
        if v[i] == *s {
            assert(strings_view(v@)[i as int] == s@);
            return true;
        }
        i = i + 1;
    }
    false
}

impl Resolution {
    pub open spec fn requested_paths(&self) -> Seq<Seq<char>> {
        strings_view(self.requested@)
    }

    pub open spec fn done_paths(&self) -> Seq<Seq<char>> {
        self.modules@.map_values(|e: (String, Module)| e.0@)
    }

    /// Requested path `i` was imported by a module compiled from an earlier requested path.
    pub open spec fn discovered(&self, i: int) -> bool {
        exists|k: int, j: int|
            #![trigger self.requested_paths()[j], self.modules@[k]]
            0 <= k < self.modules@.len() && 0 <= j < i && self.requested_paths()[j]
                == self.done_paths()[k] && import_paths(self.modules@[k].1).contains(
                self.requested_paths()[i],
            )
    }

    pub open spec fn wf(&self) -> bool {
        let req = self.requested_paths();
        let done = self.done_paths();
        &&& req.len() >= 1
        &&& req[0] == self.root@
        &&& req.no_duplicates()
        &&& done.no_duplicates()
        &&& forall|k: int| 0 <= k < done.len() ==> req.contains(#[trigger] done[k])
        &&& forall|k: int, j: int|
            0 <= k < self.modules@.len() && 0 <= j < import_paths(self.modules@[k].1).len()
                ==> req.contains(#[trigger] import_paths(self.modules@[k].1)[j])
        &&& forall|i: int| 1 <= i < req.len() ==> #[trigger] self.discovered(i)
    }

    /// A run from `root`: the root is requested and nothing is compiled yet.
    pub fn new(root: String) -> (r: Resolution)
        ensures
            r.wf(),
            r.root@ == root@,
            r.requested_paths() == seq![root@],
            r.modules@.len() == 0,
    {
        let mut requested: Vec<String> = Vec::new();
        requested.push(root.clone());
        let r = Resolution { root, requested, modules: Vec::new() };
        assert(r.requested_paths() =~= seq![r.root@]);
        r
    }

    /// Every requested module has come back.
    pub fn is_done(&self) -> (r: bool)
        requires
            self.wf(),
        ensures
            r == (self.modules@.len() == self.requested@.len()),
    {
        self.modules.len() == self.requested.len()
    }

    /// Records the compiled module `name` and returns the paths it imports that
    /// were never requested, which are now requested.
    pub fn on_result(&mut self, name: String, module: Module) -> (fresh: Vec<String>)
        requires
            old(self).wf(),
            old(self).requested_paths().contains(name@),
            !old(self).done_paths().contains(name@),
        ensures
            final(self).wf(),
            final(self).root == old(self).root,
            final(self).modules@ == old(self).modules@.push((name, module)),
            strings_view(fresh@) == new_paths(old(self).requested_paths(), import_paths(module)),
            final(self).requested_paths() == old(self).requested_paths() + strings_view(fresh@),
            strings_view(fresh@).no_duplicates(),
            forall|x: int|
                0 <= x < fresh@.len() ==> !old(self).requested_paths().contains(#[trigger] fresh@[x]@),
    {
        let ghost known = self.requested_paths();
        let ghost old_self = *self;
        let ghost imps = import_paths(module);
        let mut fresh: Vec<String> = Vec::new();
        if let Module::Source { imports, .. } = &module {
            let mut i: usize = 0;
            while i < imports.len()
                invariant
                    imps == imports@.map_values(|i: Import| i.module@),
                    i <= imports@.len(),
                    self.root == old_self.root,
                    self.modules == old_self.modules,
                    self.requested_paths() == known + strings_view(fresh@),
                    strings_view(fresh@) == new_paths(known, imps.subrange(0, i as int)),
                    self.requested_paths().no_duplicates(),
                    forall|j: int| 0 <= j < i ==> self.requested_paths().contains(#[trigger] imps[j]),
                decreases imports@.len() - i,
            {
                let ghost sub = imps.subrange(0, i + 1);
                assert(sub.drop_last() =~= imps.subrange(0, i as int));
                assert(sub.last() == imps[i as int]);
                let p = &imports[i].module;
                let ghost before = self.requested_paths();
                let ghost before_fresh = fresh@;
                if !contains(&self.requested, p) {
                    self.requested.push(p.clone());
                    fresh.push(p.clone());
                    assert(self.requested_paths() =~= before.push(p@));
                    assert(strings_view(fresh@) =~= strings_view(before_fresh).push(p@));
                    assert(known + strings_view(fresh@) =~= before.push(p@));
                    assert(self.requested_paths().no_duplicates()) by {
                        assert forall|a: int, b: int|
                            0 <= a < b < self.requested_paths().len() implies self.requested_paths()[a]
                            != self.requested_paths()[b] by {
                            if b == before.len() {
                                assert(before.contains(before[a]));
                            }
                        }
                    }
                    assert forall|j: int| 0 <= j < i + 1 implies self.requested_paths().contains(
                        #[trigger] imps[j],
                    ) by {
                        if j < i {
                            assert(before.contains(imps[j]));
                            let x = choose|x: int| 0 <= x < before.len() && before[x] == imps[j];
                            assert(self.requested_paths()[x] == imps[j]);
                        } else {
                            assert(self.requested_paths()[before.len() as int] == imps[j]);
                        }
                    }
                }
                i = i + 1;
            }
            assert(imps.subrange(0, i as int) =~= imps);
        } else {
            assert(strings_view(fresh@) =~= seq![]);
            assert(known + strings_view(fresh@) =~= known);
        }
        let ghost req_new = self.requested_paths();
        assert(known.contains(name@));
        let ghost nj = choose|x: int| 0 <= x < known.len() && known[x] == name@;
        let ghost done_old = old_self.done_paths();
        self.modules.push((name, module));
        assert(self.done_paths() =~= done_old.push(name@));
        proof {
            let req = self.requested_paths();
            let done = self.done_paths();
            let mlen = old_self.modules@.len();
            assert forall|x: int| 0 <= x < known.len() implies req[x] == known[x] by {}
            assert forall|k: int| 0 <= k < done.len() implies req.contains(#[trigger] done[k]) by {
                let kk = if k < done_old.len() {
                    choose|x: int| 0 <= x < known.len() && known[x] == done_old[k]
                } else {
                    nj
                };
                assert(req[kk] == done[k]);
            }
            assert forall|k: int, j: int|
                0 <= k < self.modules@.len() && 0 <= j < import_paths(self.modules@[k].1).len()
                    implies req.contains(#[trigger] import_paths(self.modules@[k].1)[j]) by {
                if k < mlen {
                    assert(self.modules@[k] == old_self.modules@[k]);
                    let q = import_paths(self.modules@[k].1)[j];
                    assert(known.contains(q));
                    let x = choose|x: int| 0 <= x < known.len() && known[x] == q;
                    assert(req[x] == q);
                } else {
                    assert(self.modules@[k].1 == module);
                }
            }
            assert forall|i: int| 1 <= i < req.len() implies #[trigger] self.discovered(i) by {
                if i < known.len() {
                    assert(old_self.discovered(i));
                    let (k, j) = choose|k: int, j: int|
                        #![trigger old_self.requested_paths()[j], old_self.modules@[k]]
                        0 <= k < old_self.modules@.len() && 0 <= j < i
                            && old_self.requested_paths()[j] == old_self.done_paths()[k]
                            && import_paths(old_self.modules@[k].1).contains(
                            old_self.requested_paths()[i],
                        );
                    assert(req[j] == known[j]);
                    assert(self.modules@[k] == old_self.modules@[k]);
                    assert(done[k] == done_old[k]);
                    assert(import_paths(self.modules@[k].1).contains(req[i]));
                } else {
                    assert(req[i] == strings_view(fresh@)[i - known.len()]);
                    lemma_new_paths_from(known, imps);
                    assert(imps.contains(req[i]));
                    assert(self.modules@[mlen as int].1 == module);
                    assert(done[mlen as int] == name@);
                    assert(req[nj] == name@);
                    assert(import_paths(self.modules@[mlen as int].1).contains(req[i]));
                    assert(req[nj] == done[mlen as int]);
                }
            }
            assert(done.no_duplicates()) by {
                assert forall|a: int, b: int| 0 <= a < b < done.len() implies done[a] != done[b] by {
                    if b == done_old.len() {
                        assert(done_old.contains(done_old[a]));
                    }
                }
            }
        }
        proof {
            let req = self.requested_paths();
            let f = strings_view(fresh@);
            assert forall|a: int, b: int| 0 <= a < b < f.len() implies f[a] != f[b] by {
                assert(f[a] == req[known.len() + a] && f[b] == req[known.len() + b]);
            }
            assert forall|x: int| 0 <= x < fresh@.len() implies !known.contains(#[trigger] fresh@[x]@) by {
                assert(f[x] == fresh@[x]@);
                if known.contains(f[x]) {
                    let y = choose|y: int| 0 <= y < known.len() && known[y] == f[x];
                    assert(req[y] == req[known.len() + x]);
                }
            }
        }
        fresh
    }

    /// Decides what follows a compilation outcome: a failure stops the run with
    /// the module's name; a success is recorded as by `on_result`.
    pub fn on_outcome(&mut self, name: String, outcome: Result<Module, CompileError>) -> (s: Step)
        requires
            old(self).wf(),
            old(self).requested_paths().contains(name@),
            !old(self).done_paths().contains(name@),
        ensures
            final(self).wf(),
            match (outcome, s) {
                (Err(e), Step::Abort(f)) => *final(self) == *old(self) && f.module@ == name@
                    && f.cause == e,
                (Ok(m), Step::Request(fresh)) => final(self).modules@ == old(self).modules@.push(
                    (name, m),
                ) && strings_view(fresh@) == new_paths(old(self).requested_paths(), import_paths(m))
                    && final(self).requested_paths() == old(self).requested_paths()
                    + strings_view(fresh@),
                _ => false,
            },
    {
        match outcome {
            Ok(m) => Step::Request(self.on_result(name, m)),
            Err(e) => Step::Abort(ResolveError { module: name, cause: e }),
        }
    }

    /// The program, once every requested module has come back: the compiled
    /// modules, each once, in path order whatever order they came back in.
    pub fn finish(self) -> (r: Ast)
        requires
            self.wf(),
            self.modules@.len() == self.requested@.len(),
        ensures
            r.is_sorted(),
            r.modules@.len() == self.modules@.len(),
            forall|i: int| 0 <= i < self.modules@.len() ==> r.modules@.contains(#[trigger] self.modules@[i]),
            forall|j: int| 0 <= j < r.modules@.len() ==> self.modules@.contains(#[trigger] r.modules@[j]),
    {
        let ghost orig = self.modules@;
        let ghost done = self.done_paths();
        let mut rest = self.modules;
        let mut out: Vec<(String, Module)> = Vec::new();
        while rest.len() > 0
            invariant
                done == orig.map_values(|e: (String, Module)| e.0@),
                done.no_duplicates(),
                rest@ == orig.subrange(0, rest@.len() as int),
                out@.len() + rest@.len() == orig.len(),
                sorted_by_path(out@),
                forall|j: int|
                    0 <= j < out@.len() ==> exists|i: int|
                        rest@.len() <= i < orig.len() && orig[i] == #[trigger] out@[j],
                forall|i: int| rest@.len() <= i < orig.len() ==> out@.contains(#[trigger] orig[i]),
            decreases rest@.len(),
        {
            let ghost n = rest@.len() - 1;
            let e = rest.pop().unwrap();
            assert(e == orig[n]);
            let pos = insert_position(&out, &e.0);
            let ghost before = out@;
            proof {
                assert forall|j: int| 0 <= j < before.len() implies before[j].0@ != e.0@ by {
                    let i = choose|i: int| n < i < orig.len() && orig[i] == before[j];
                    assert(done[i] == before[j].0@ && done[n] == e.0@);
                }
                assert forall|j: int| 0 <= j < pos implies path_lt(before[j].0@, e.0@) by {
                    lemma_path_lt_total(before[j].0@, e.0@);
                }
                assert forall|j: int| pos <= j < before.len() implies path_lt(e.0@, before[j].0@) by {
                    if j > pos {
                        lemma_path_lt_trans(e.0@, before[pos as int].0@, before[j].0@);
                    }
                }
            }
            out.insert(pos, e);
            proof {
                let after = out@;
                assert forall|a: int, b: int| 0 <= a < b < after.len() implies path_lt(
                    #[trigger] after[a].0@,
                    #[trigger] after[b].0@,
                ) by {
                    if b < pos {
                        assert(after[a] == before[a] && after[b] == before[b]);
                    } else if b == pos {
                        assert(after[a] == before[a]);
                    } else if a < pos {
                        assert(after[a] == before[a] && after[b] == before[b - 1]);
                    } else if a == pos {
                        assert(after[b] == before[b - 1]);
                    } else {
                        assert(after[a] == before[a - 1] && after[b] == before[b - 1]);
                    }
                }
                assert forall|j: int| 0 <= j < after.len() implies exists|i: int|
                    n <= i < orig.len() && orig[i] == #[trigger] after[j] by {
                    if j < pos {
                        assert(after[j] == before[j]);
                    } else if j == pos {
                        assert(orig[n] == after[j]);
                    } else {
                        assert(after[j] == before[j - 1]);
                    }
                }
                assert forall|i: int| n <= i < orig.len() implies after.contains(#[trigger] orig[i]) by {
                    if i == n {
                        assert(after[pos as int] == orig[i]);
                    } else {
                        assert(before.contains(orig[i]));
                        let j = choose|j: int| 0 <= j < before.len() && before[j] == orig[i];
                        if j < pos {
                            assert(after[j] == orig[i]);
                        } else {
                            assert(after[j + 1] == orig[i]);
                        }
                    }
                }
            }
        }
        proof {
            assert forall|j: int| 0 <= j < out@.len() implies orig.contains(#[trigger] out@[j]) by {
                let i = choose|i: int| 0 <= i < orig.len() && orig[i] == out@[j];
            }
        }
        Ast { modules: out }
    }
}

/// Where `p` goes among the entries of `out` to keep them in path order.
fn insert_position(out: &Vec<(String, Module)>, p: &String) -> (pos: usize)
    ensures
        pos <= out@.len(),
        forall|j: int| 0 <= j < pos ==> !path_lt(p@, #[trigger] out@[j].0@),
        pos < out@.len() ==> path_lt(p@, out@[pos as int].0@),
{
    let mut i: usize = 0;
    while i < out.len()
        invariant
            i <= out@.len(),
            forall|j: int| 0 <= j < i ==> !path_lt(p@, #[trigger] out@[j].0@),
        decreases out@.len() - i,
    {
        if path_less(p, &out[i].0) {
            return i;
        }
        i = i + 1;
    }
    i
}

/// Every path that `new_paths` yields comes from `imports` and is new to `known`.
pub proof fn lemma_new_paths_from(known: Seq<Seq<char>>, imports: Seq<Seq<char>>)
    ensures
        forall|x: int|
            0 <= x < new_paths(known, imports).len() ==> imports.contains(
                #[trigger] new_paths(known, imports)[x],
            ) && !known.contains(new_paths(known, imports)[x]),
    decreases imports.len(),
{
    if imports.len() > 0 {
        let pre = imports.drop_last();
        lemma_new_paths_from(known, pre);
        let p = new_paths(known, pre);
        assert forall|x: int| 0 <= x < new_paths(known, imports).len() implies imports.contains(
            #[trigger] new_paths(known, imports)[x],
        ) && !known.contains(new_paths(known, imports)[x]) by {
            if x < p.len() {
                assert(new_paths(known, imports)[x] == p[x]);
                let y = choose|y: int| 0 <= y < pre.len() && pre[y] == p[x];
                assert(imports[y] == p[x]);
            } else {
                assert(imports[imports.len() - 1] == imports.last());
                if known.contains(imports.last()) {
                    let y = choose|y: int| 0 <= y < known.len() && known[y] == imports.last();
                    assert((known + p)[y] == imports.last());
                }
            }
        }
    }
}

/// Some compiled module held under `a` imports `b`.
pub open spec fn imports_edge(modules: Seq<(String, Module)>, a: Seq<char>, b: Seq<char>) -> bool {
    exists|k: int|
        0 <= k < modules.len() && #[trigger] modules[k].0@ == a && import_paths(modules[k].1).contains(
            b,
        )
}

/// `chain` starts at `root` and each of its paths is imported by a compiled
/// module held under the path before it.
pub open spec fn is_import_chain(
    modules: Seq<(String, Module)>,
    root: Seq<char>,
    chain: Seq<Seq<char>>,
) -> bool {
    &&& chain.len() >= 1
    &&& chain[0] == root
    &&& forall|x: int| 0 <= x < chain.len() - 1 ==> imports_edge(modules, #[trigger] chain[x], chain[x + 1])
}

/// `p` is reached from `root` by following imports.
pub open spec fn reachable(modules: Seq<(String, Module)>, root: Seq<char>, p: Seq<char>) -> bool {
    exists|chain: Seq<Seq<char>>| is_import_chain(modules, root, chain) && chain.last() == p
}

proof fn lemma_requested_reachable(r: Resolution, i: int) -> (chain: Seq<Seq<char>>)
    requires
        r.wf(),
        0 <= i < r.requested@.len(),
    ensures
        is_import_chain(r.modules@, r.root@, chain),
        chain.last() == r.requested_paths()[i],
    decreases i,
{
    if i == 0 {
        seq![r.root@]
    } else {
        assert(r.discovered(i));
        let (k, j) = choose|k: int, j: int|
            #![trigger r.requested_paths()[j], r.modules@[k]]
            0 <= k < r.modules@.len() && 0 <= j < i && r.requested_paths()[j] == r.done_paths()[k]
                && import_paths(r.modules@[k].1).contains(r.requested_paths()[i]);
        let q = r.requested_paths()[j];
        let pre = lemma_requested_reachable(r, j);
        assert(r.modules@[k].0@ == q);
        assert(imports_edge(r.modules@, q, r.requested_paths()[i]));
        let chain = pre.push(r.requested_paths()[i]);
        assert forall|x: int| 0 <= x < chain.len() - 1 implies imports_edge(
            r.modules@,
            #[trigger] chain[x],
            chain[x + 1],
        ) by {
            if x < pre.len() - 1 {
                assert(chain[x] == pre[x] && chain[x + 1] == pre[x + 1]);
            }
        }
        chain
    }
}

proof fn lemma_chain_done(r: Resolution, chain: Seq<Seq<char>>, n: int)
    requires
        r.wf(),
        r.done_paths().to_set() == r.requested_paths().to_set(),
        is_import_chain(r.modules@, r.root@, chain),
        0 <= n < chain.len(),
    ensures
        r.done_paths().contains(chain[n]),
    decreases n,
{
    if n == 0 {
        assert(r.requested_paths().contains(r.requested_paths()[0]));
        assert(r.requested_paths().to_set().contains(chain[0]));
    } else {
        let p = chain[n];
        let q = chain[n - 1];
        assert(imports_edge(r.modules@, chain[n - 1], chain[n]));
        let k = choose|k: int|
            0 <= k < r.modules@.len() && #[trigger] r.modules@[k].0@ == q && import_paths(
                r.modules@[k].1,
            ).contains(p);
        let j = choose|j: int|
            0 <= j < import_paths(r.modules@[k].1).len() && import_paths(r.modules@[k].1)[j] == p;
        assert(r.requested_paths().contains(import_paths(r.modules@[k].1)[j]));
        assert(r.requested_paths().to_set().contains(p));
    }
}

/// When a run is over, the compiled paths are exactly the paths reachable from
/// the root by following imports, root included, and no path was compiled twice.
pub proof fn lemma_fixed_point(r: Resolution)
    requires
        r.wf(),
        r.modules@.len() == r.requested@.len(),
    ensures
        r.done_paths().no_duplicates(),
        r.done_paths().to_set() == r.requested_paths().to_set(),
        r.done_paths().contains(r.root@),
        forall|p: Seq<char>| r.done_paths().contains(p) <==> reachable(r.modules@, r.root@, p),
{
    let done = r.done_paths();
    let req = r.requested_paths();
    done.unique_seq_to_set();
    req.unique_seq_to_set();
    assert(done.to_set().subset_of(req.to_set())) by {
        assert forall|p: Seq<char>| done.to_set().contains(p) implies req.to_set().contains(p) by {
            let k = choose|k: int| 0 <= k < done.len() && done[k] == p;
            assert(req.contains(done[k]));
        }
    }
    vstd::set_lib::lemma_subset_equality(done.to_set(), req.to_set());
    assert(req.contains(req[0]));
    assert(req.to_set().contains(r.root@));
    assert forall|p: Seq<char>| done.contains(p) <==> reachable(r.modules@, r.root@, p) by {
        if done.contains(p) {
            assert(done.to_set().contains(p));
            let i = choose|i: int| 0 <= i < req.len() && req[i] == p;
            let chain = lemma_requested_reachable(r, i);
            assert(is_import_chain(r.modules@, r.root@, chain) && chain.last() == p);
        }
        if reachable(r.modules@, r.root@, p) {
            let chain = choose|chain: Seq<Seq<char>>|
                is_import_chain(r.modules@, r.root@, chain) && chain.last() == p;
            lemma_chain_done(r, chain, chain.len() - 1);
        }
    }
}

/// The program that `finish` hands back holds each reachable path exactly once:
/// its paths are exactly those reachable from the root by following imports.
pub proof fn lemma_program_is_reachable_set(r: Resolution, a: Ast)
    requires
        r.wf(),
        r.modules@.len() == r.requested@.len(),
        a.is_sorted(),
        forall|i: int| 0 <= i < r.modules@.len() ==> a.modules@.contains(#[trigger] r.modules@[i]),
        forall|j: int| 0 <= j < a.modules@.len() ==> r.modules@.contains(#[trigger] a.modules@[j]),
    ensures
        a.paths().no_duplicates(),
        a.paths().contains(r.root@),
        forall|p: Seq<char>| a.paths().contains(p) <==> reachable(r.modules@, r.root@, p),
{
    lemma_fixed_point(r);
    let done = r.done_paths();
    assert forall|p: Seq<char>| a.paths().contains(p) <==> done.contains(p) by {
        if a.paths().contains(p) {
            let j = choose|j: int| 0 <= j < a.paths().len() && a.paths()[j] == p;
            assert(r.modules@.contains(a.modules@[j]));
            let i = choose|i: int| 0 <= i < r.modules@.len() && r.modules@[i] == a.modules@[j];
            assert(done[i] == p);
        }
        if done.contains(p) {
            let i = choose|i: int| 0 <= i < done.len() && done[i] == p;
            assert(a.modules@.contains(r.modules@[i]));
            let j = choose|j: int| 0 <= j < a.modules@.len() && a.modules@[j] == r.modules@[i];
            assert(a.paths()[j] == p);
        }
    }
    assert forall|p: Seq<char>| a.paths().contains(p) <==> reachable(r.modules@, r.root@, p) by {
        assert(a.paths().contains(p) <==> done.contains(p));
        assert(done.contains(p) <==> reachable(r.modules@, r.root@, p));
    }
    assert forall|x: int, y: int| 0 <= x < y < a.paths().len() implies a.paths()[x] != a.paths()[y] by {
        assert(path_lt(a.modules@[x].0@, a.modules@[y].0@));
        lemma_path_lt_irreflexive(a.paths()[x]);
    }
}

/// At every state of a run each requested path is reachable from the root, so
/// a run compiles at most as many modules as there are reachable paths: each
/// `on_result` adds one module, and never more than were requested.
pub proof fn lemma_run_bounded(r: Resolution, reach: Set<Seq<char>>)
    requires
        r.wf(),
        reach.finite(),
        forall|p: Seq<char>| reachable(r.modules@, r.root@, p) ==> reach.contains(p),
    ensures
        r.modules@.len() <= r.requested@.len() <= reach.len(),
{
    let req = r.requested_paths();
    let done = r.done_paths();
    req.unique_seq_to_set();
    done.unique_seq_to_set();
    assert(req.to_set().subset_of(reach)) by {
        assert forall|p: Seq<char>| req.to_set().contains(p) implies reach.contains(p) by {
            let i = choose|i: int| 0 <= i < req.len() && req[i] == p;
            let chain = lemma_requested_reachable(r, i);
            assert(reachable(r.modules@, r.root@, p));
        }
    }
    vstd::set_lib::lemma_len_subset(req.to_set(), reach);
    assert(done.to_set().subset_of(req.to_set())) by {
        assert forall|p: Seq<char>| done.to_set().contains(p) implies req.to_set().contains(p) by {
            let k = choose|k: int| 0 <= k < done.len() && done[k] == p;
            assert(req.contains(done[k]));
        }
    }
    vstd::set_lib::lemma_len_subset(done.to_set(), req.to_set());
}

} // verus!
