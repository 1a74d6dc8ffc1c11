//! Module resolution: which file a module name stands for.
//!
//! Candidates are tried in a fixed order: every library directory with the
//! primary library extension, then with the secondary one, then every sources
//! directory with the primary source extension, then with the secondary one.
//! The first candidate that exists wins, so a library always shadows a source
//! file of the same name. Whether a candidate exists is asked of the file
//! system by the caller; this module only orders candidates and decides.

use crate::error::CompileError;
use crate::ir::Module;
use vstd::prelude::*;

verus! {

pub const LIB_EXTENSION: &'static str = "blib";

pub const LIB_EXTENSION_ALT: &'static str = "bl";

pub const SOURCE_EXTENSION: &'static str = "beast";

pub const SOURCE_EXTENSION_ALT: &'static str = "bst";

/// What a module resolves to: a precompiled library or a source file.
#[derive(Clone, Copy, Debug, PartialEq, Eq, Structural)]
pub enum SourceKind {
    Lib,
    Source,
}

/// One place a module may live: `dir` joined with the module name given `extension`.
#[derive(Clone, Debug, PartialEq, Eq)]
pub struct Candidate {
    pub kind: SourceKind,
    pub dir: String,
    pub extension: String,
}

pub open spec fn candidate_view(c: Candidate) -> (SourceKind, Seq<char>, Seq<char>) {
    (c.kind, c.dir@, c.extension@)
}

pub open spec fn with_kind(dirs: Seq<Seq<char>>, kind: SourceKind, ext: Seq<char>) -> Seq<
    (SourceKind, Seq<char>, Seq<char>),
> {
    dirs.map_values(|d: Seq<char>| (kind, d, ext))
}

/// The candidates for the search directories `lib` and `sources`, in the order they are tried.
pub open spec fn candidate_order(lib: Seq<Seq<char>>, sources: Seq<Seq<char>>) -> Seq<
    (SourceKind, Seq<char>, Seq<char>),
> {
    with_kind(lib, SourceKind::Lib, LIB_EXTENSION@) + with_kind(
        lib,
        SourceKind::Lib,
        LIB_EXTENSION_ALT@,
    ) + with_kind(sources, SourceKind::Source, SOURCE_EXTENSION@) + with_kind(
        sources,
        SourceKind::Source,
        SOURCE_EXTENSION_ALT@,
    )
}

pub open spec fn strings_view(v: Seq<String>) -> Seq<Seq<char>> {
    v.map_values(|s: String| s@)
}

/// The index of the first `true` in `exists`, if any.
pub open spec fn is_first_existing(exists: Seq<bool>, i: int) -> bool {
    0 <= i < exists.len() && exists[i] && forall|j: int| 0 <= j < i ==> !exists[j]
}

fn push_all(out: &mut Vec<Candidate>, dirs: &Vec<String>, kind: SourceKind, ext: &str)
    ensures
        final(out)@.map_values(|c: Candidate| candidate_view(c)) == old(out)@.map_values(
            |c: Candidate| candidate_view(c),
        ) + with_kind(strings_view(dirs@), kind, ext@),
{
    let ghost start = old(out)@.map_values(|c: Candidate| candidate_view(c));
    let mut i: usize = 0;
    while i < dirs.len()
        invariant
            i <= dirs@.len(),
            out@.map_values(|c: Candidate| candidate_view(c)) =~= start + with_kind(
                strings_view(dirs@),
                kind,
                ext@,
            ).subrange(0, i as int),
        decreases dirs@.len() - i,
    {
        let ghost before = out@;
        let c = Candidate { kind, dir: dirs[i].clone(), extension: ext.to_owned() };
        assert(candidate_view(c) == with_kind(strings_view(dirs@), kind, ext@)[i as int]);
        out.push(c);
        assert(out@.map_values(|c: Candidate| candidate_view(c)) =~= before.map_values(
            |c: Candidate| candidate_view(c),
        ).push(candidate_view(c)));
        assert(with_kind(strings_view(dirs@), kind, ext@).subrange(0, i + 1) =~= with_kind(
            strings_view(dirs@),
            kind,
            ext@,
        ).subrange(0, i as int).push(candidate_view(c)));
        i = i + 1;
    }
    assert(with_kind(strings_view(dirs@), kind, ext@).subrange(0, i as int) =~= with_kind(
        strings_view(dirs@),
        kind,
        ext@,
    ));
}

/// Every candidate for a module, in the order they are tried.
pub fn candidates(lib: &Vec<String>, sources: &Vec<String>) -> (r: Vec<Candidate>)
    ensures
        r@.map_values(|c: Candidate| candidate_view(c)) == candidate_order(
            strings_view(lib@),
            strings_view(sources@),
        ),
{
    let mut out: Vec<Candidate> = Vec::new();
    push_all(&mut out, lib, SourceKind::Lib, LIB_EXTENSION);
    push_all(&mut out, lib, SourceKind::Lib, LIB_EXTENSION_ALT);
    push_all(&mut out, sources, SourceKind::Source, SOURCE_EXTENSION);
    push_all(&mut out, sources, SourceKind::Source, SOURCE_EXTENSION_ALT);
    assert(Seq::<Candidate>::empty().map_values(|c: Candidate| candidate_view(c)) =~= seq![]);
    out
}

/// What compiling a module takes once its file is known.
#[derive(Debug)]
pub enum Plan {
    /// The module is the precompiled library at this path; nothing is lowered.
    Library(Module),
    /// The source file at this path is read, parsed and lowered.
    LowerSource(String),
}

/// Decides, from the kind of the chosen candidate, whether the module is done
/// (a library) or its source at `path` must be lowered.
pub fn plan(kind: SourceKind, path: String) -> (r: Plan)
    ensures
        kind == SourceKind::Lib ==> (r matches Plan::Library(Module::Lib { path: p }) && p == path),
        kind == SourceKind::Source ==> (r matches Plan::LowerSource(p) && p == path),
{
    match kind {
        SourceKind::Lib => Plan::Library(Module::Lib { path }),
        SourceKind::Source => Plan::LowerSource(path),
    }
}

/// Picks the first candidate that exists; `exists[i]` tells whether candidate `i` does.
/// Fails with `NotFound` naming `module` when none does.
pub fn pick(module: &String, exists: &Vec<bool>) -> (r: Result<usize, CompileError>)
    ensures
        r matches Ok(i) ==> is_first_existing(exists@, i as int),
        r is Err <==> forall|j: int| 0 <= j < exists@.len() ==> !exists@[j],
        r matches Err(e) ==> e matches CompileError::NotFound { module: m } && m@ == module@,
{
    let mut i: usize = 0;
    while i < exists.len()
        invariant
            i <= exists@.len(),
            forall|j: int| 0 <= j < i ==> !exists@[j],
        decreases exists@.len() - i,
    {
        if exists[i] {
            return Ok(i);
        }
        i = i + 1;
    }
    Err(CompileError::NotFound { module: module.clone() })
}

/// A library candidate that exists shadows every source candidate.
pub proof fn lemma_library_shadows_source(
    lib: Seq<Seq<char>>,
    sources: Seq<Seq<char>>,
    exists: Seq<bool>,
    l: int,
    i: int,
)
    requires
        exists.len() == candidate_order(lib, sources).len(),
        0 <= l < exists.len(),
        candidate_order(lib, sources)[l].0 == SourceKind::Lib,
        exists[l],
        is_first_existing(exists, i),
    ensures
        candidate_order(lib, sources)[i].0 == SourceKind::Lib,
{
    let c = candidate_order(lib, sources);
    assert(l < 2 * lib.len()) by {
        if l >= 2 * lib.len() {
            assert(c[l].0 == SourceKind::Source);
        }
    }
    assert(i <= l);
}

/// Among libraries, one with the primary extension in any library directory is
/// chosen over every one with the secondary extension.
pub proof fn lemma_primary_extension_first(
    lib: Seq<Seq<char>>,
    sources: Seq<Seq<char>>,
    exists: Seq<bool>,
    l: int,
    i: int,
)
    requires
        exists.len() == candidate_order(lib, sources).len(),
        0 <= l < exists.len(),
        candidate_order(lib, sources)[l].0 == SourceKind::Lib,
        candidate_order(lib, sources)[l].2 == LIB_EXTENSION@,
        exists[l],
        is_first_existing(exists, i),
    ensures
        candidate_order(lib, sources)[i].0 == SourceKind::Lib,
        candidate_order(lib, sources)[i].2 == LIB_EXTENSION@,
{
    let c = candidate_order(lib, sources);
    reveal_strlit("blib");
    reveal_strlit("bl");
    reveal_strlit("beast");
    reveal_strlit("bst");
    let a = with_kind(lib, SourceKind::Lib, LIB_EXTENSION@);
    let b = with_kind(lib, SourceKind::Lib, LIB_EXTENSION_ALT@);
    assert(LIB_EXTENSION@ != LIB_EXTENSION_ALT@) by {
        assert(LIB_EXTENSION@.len() != LIB_EXTENSION_ALT@.len());
    }
    assert(l < lib.len()) by {
        if l >= 2 * lib.len() {
            assert(c[l].0 == SourceKind::Source);
        } else if l >= lib.len() {
            assert(c[l] == (a + b)[l]);
            assert(c[l] == b[l - lib.len()]);
        }
    }
    assert(i <= l);
}

} // verus!
