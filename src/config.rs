//! Project configuration and the search directories derived from it.

use crate::error::CompileError;
use crate::ir::Module;
use crate::lower::{first_bad_item, item_error, lower_module, module_lowers, module_ok, Node};
use crate::resolve::{candidate_order, candidate_view, candidates, strings_view, Candidate};
use vstd::prelude::*;

verus! {

/// Library directory searched when the configuration names none.
pub const DEFAULT_LIB_PATH: &'static str = "lib";

/// Source directory searched when the configuration names none.
pub const DEFAULT_SOURCE_PATH: &'static str = "src";

/// The module a program starts from by default.
pub const BEAST_DEFAULT_ENTRY_POINT_MODULE: &'static str = "main";

/// The function a program starts at.
pub const BEAST_ENTRY_POINT_FUNC: &'static str = "$main";

#[derive(Clone, Debug, PartialEq, Eq)]
pub struct Program {
    /// The version of the virtual machine library the program targets.
    pub target: String,
    pub system_id: String,
    pub mem_pages: Option<u8>,
}

#[derive(Clone, Debug, PartialEq, Eq)]
pub struct Compilation {
    pub entry_point: Option<String>,
    pub absolute_module_paths: Option<bool>,
    /// Library search directories, in order.
    pub lib: Option<Vec<String>>,
    /// Source search directories, in order.
    pub sources: Option<Vec<String>>,
}

#[derive(Clone, Debug, PartialEq, Eq)]
pub struct Config {
    pub program: Program,
    pub compilation: Option<Compilation>,
    /// Named system signals and their numbers.
    pub signals: Option<Vec<(String, u16)>>,
}

impl Config {
    /// Each signal is named once.
    pub open spec fn wf(&self) -> bool {
        self.signals matches Some(s) ==> s@.map_values(|e: (String, u16)| e.0@).no_duplicates()
    }
}

/// The library directories `config` asks for, or the default one.
pub open spec fn lib_dirs(config: Config) -> Seq<Seq<char>> {
    match config.compilation {
        Some(c) => match c.lib {
            Some(l) => strings_view(l@),
            None => seq![DEFAULT_LIB_PATH@],
        },
        None => seq![DEFAULT_LIB_PATH@],
    }
}

/// The source directories `config` asks for, or the default one.
pub open spec fn source_dirs(config: Config) -> Seq<Seq<char>> {
    match config.compilation {
        Some(c) => match c.sources {
            Some(l) => strings_view(l@),
            None => seq![DEFAULT_SOURCE_PATH@],
        },
        None => seq![DEFAULT_SOURCE_PATH@],
    }
}

fn copy_strings(v: &Vec<String>) -> (r: Vec<String>)
    ensures
        strings_view(r@) == strings_view(v@),
{
    let mut out: Vec<String> = Vec::new();
    let mut i: usize = 0;
    while i < v.len()
        invariant
            i <= v@.len(),
            strings_view(out@) =~= strings_view(v@).subrange(0, i as int),
        decreases v@.len() - i,
    {
        let ghost before = out@;
        out.push(v[i].clone());
        assert(strings_view(out@) =~= strings_view(before).push(v@[i as int]@));
        i = i + 1;
    }
    assert(strings_view(v@).subrange(0, i as int) =~= strings_view(v@));
    out
}

fn dirs_or(dirs: &Option<Vec<String>>, default: &str) -> (r: Vec<String>)
    ensures
        strings_view(r@) == match dirs {
            Some(l) => strings_view(l@),
            None => seq![default@],
        },
{
    match dirs {
        Some(l) => copy_strings(l),
        None => {
            let mut v: Vec<String> = Vec::new();
            v.push(default.to_owned());
            assert(strings_view(v@) =~= seq![default@]);
            v
        },
    }
}

/// A compiler front end set up from a configuration.
#[derive(Clone, Debug)]
pub struct AstGen {
    pub config: Config,
    /// Library search directories, in order.
    pub lib: Vec<String>,
    /// Source search directories, in order.
    pub sources: Vec<String>,
}

impl AstGen {
    /// Takes the search directories from `config`, each list defaulting to a
    /// single directory when unset.
    pub fn new(config: Config) -> (r: AstGen)
        requires
            config.wf(),
        ensures
            r.config == config,
            strings_view(r.lib@) == lib_dirs(config),
            strings_view(r.sources@) == source_dirs(config),
    {
        let (lib, sources) = match &config.compilation {
            Some(c) => (dirs_or(&c.lib, DEFAULT_LIB_PATH), dirs_or(&c.sources, DEFAULT_SOURCE_PATH)),
            None => {
                let none: Option<Vec<String>> = None;
                (dirs_or(&none, DEFAULT_LIB_PATH), dirs_or(&none, DEFAULT_SOURCE_PATH))
            },
        };
        AstGen { config, lib, sources }
    }

    /// The places a module may live, in the order they are tried.
    pub fn candidates(&self) -> (r: Vec<Candidate>)
        ensures
            r@.map_values(|c: Candidate| candidate_view(c)) == candidate_order(
                strings_view(self.lib@),
                strings_view(self.sources@),
            ),
    {
        candidates(&self.lib, &self.sources)
    }

    /// Lowers the parsed items of source module `name`.
    pub fn source_module(&self, name: String, items: &Vec<Node>) -> (r: Result<Module, CompileError>)
        ensures
            r is Ok <==> module_ok(items@),
            r matches Ok(m) ==> module_lowers(name@, items@, m),
            r matches Err(e) ==> 0 <= first_bad_item(items@, 0) < items@.len() && e
                == CompileError::Lower(item_error(items@[first_bad_item(items@, 0)])),
    {
        match lower_module(name, items) {
            Ok(m) => Ok(m),
            Err(e) => Err(CompileError::Lower(e)),
        }
    }
}

} // verus!
