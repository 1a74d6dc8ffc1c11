use beast::config::{AstGen, Compilation, Config, Program};
use beast::error::{CompileError, ResolveError};
use beast::ir::{Import, Module};
use beast::resolve::{candidates, pick, plan, Candidate, Plan, SourceKind};
use beast::schedule::{Resolution, Step};

fn program() -> Program {
    Program { target: "0.1".to_string(), system_id: "beast".to_string(), mem_pages: None }
}

fn strings(v: &[&str]) -> Vec<String> {
    v.iter().map(|s| s.to_string()).collect()
}

fn source(path: &str, imports: &[&str]) -> Module {
    Module::Source {
        path: path.to_string(),
        imports: imports
            .iter()
            .map(|m| Import {
                origin_name: "f".to_string(),
                alias: "f".to_string(),
                module: m.to_string(),
            })
            .collect(),
        exports: Vec::new(),
        constants: Vec::new(),
        funcs: Vec::new(),
    }
}

fn cand(kind: SourceKind, dir: &str, ext: &str) -> Candidate {
    Candidate { kind, dir: dir.to_string(), extension: ext.to_string() }
}

#[test]
fn candidate_order_is_libraries_then_sources_by_extension() {
    let c = candidates(&strings(&["l1", "l2"]), &strings(&["s1"]));
    assert_eq!(
        c,
        vec![
            cand(SourceKind::Lib, "l1", "blib"),
            cand(SourceKind::Lib, "l2", "blib"),
            cand(SourceKind::Lib, "l1", "bl"),
            cand(SourceKind::Lib, "l2", "bl"),
            cand(SourceKind::Source, "s1", "beast"),
            cand(SourceKind::Source, "s1", "bst"),
        ]
    );
}

#[test]
fn library_shadows_source() {
    let c = candidates(&strings(&["lib"]), &strings(&["src"]));
    let exists = vec![false, true, true, false];
    let i = pick(&"m".to_string(), &exists).unwrap();
    assert_eq!(c[i].kind, SourceKind::Lib);
    assert_eq!(c[i].extension, "bl");
}

#[test]
fn primary_library_extension_wins() {
    let c = candidates(&strings(&["a", "b"]), &strings(&["src"]));
    let exists = vec![false, true, true, false, true, true];
    let i = pick(&"m".to_string(), &exists).unwrap();
    assert_eq!(c[i], cand(SourceKind::Lib, "b", "blib"));
}

#[test]
fn source_found_when_no_library() {
    let c = candidates(&strings(&["lib"]), &strings(&["src"]));
    let i = pick(&"m".to_string(), &vec![false, false, false, true]).unwrap();
    assert_eq!(c[i], cand(SourceKind::Source, "src", "bst"));
}

#[test]
fn missing_module_is_not_found() {
    assert_eq!(
        pick(&"missing".to_string(), &vec![false, false, false, false]),
        Err(CompileError::NotFound { module: "missing".to_string() })
    );
}

#[test]
fn ast_gen_defaults() {
    let g = AstGen::new(Config { program: program(), compilation: None, signals: None });
    assert_eq!(g.lib, strings(&["lib"]));
    assert_eq!(g.sources, strings(&["src"]));
    assert_eq!(g.candidates().len(), 4);
}

#[test]
fn ast_gen_configured_dirs() {
    let compilation = Compilation {
        entry_point: None,
        absolute_module_paths: None,
        lib: Some(strings(&["a", "b"])),
        sources: None,
    };
    let g = AstGen::new(Config { program: program(), compilation: Some(compilation), signals: None });
    assert_eq!(g.lib, strings(&["a", "b"]));
    assert_eq!(g.sources, strings(&["src"]));
    assert_eq!(g.candidates()[1], cand(SourceKind::Lib, "b", "blib"));
}

/// Runs a resolution to its end, compiling each requested module from `graph`.
fn run(root: &str, graph: &[(&str, &[&str])]) -> Result<Vec<String>, ResolveError> {
    let mut r = Resolution::new(root.to_string());
    let mut queue = vec![root.to_string()];
    let mut compiled = Vec::new();
    while let Some(name) = queue.pop() {
        compiled.push(name.clone());
        let outcome = match graph.iter().find(|(n, _)| *n == name) {
            Some((n, imports)) => Ok(source(n, imports)),
            None => Err(CompileError::NotFound { module: name.clone() }),
        };
        match r.on_outcome(name, outcome) {
            Step::Request(fresh) => queue.extend(fresh),
            Step::Abort(e) => return Err(e),
        }
    }
    assert!(r.is_done());
    let mut seen = compiled.clone();
    seen.sort();
    seen.dedup();
    assert_eq!(seen.len(), compiled.len());
    let ast = r.finish();
    Ok(ast.modules.iter().map(|(p, _)| p.clone()).collect())
}

#[test]
fn end_to_end_three_modules() {
    let graph: &[(&str, &[&str])] =
        &[("main", &["util", "math"]), ("util", &["math"]), ("math", &[])];
    assert_eq!(run("main", graph).unwrap(), strings(&["main", "math", "util"]));
}

#[test]
fn ast_entries_are_source_modules() {
    let mut r = Resolution::new("main".to_string());
    let fresh = r.on_result("main".to_string(), source("main", &["util", "math"]));
    assert_eq!(fresh, strings(&["util", "math"]));
    assert!(!r.is_done());
    assert_eq!(r.on_result("math".to_string(), source("math", &[])), Vec::<String>::new());
    assert_eq!(r.on_result("util".to_string(), source("util", &["math", "main"])), Vec::<String>::new());
    assert!(r.is_done());
    let ast = r.finish();
    assert_eq!(ast.modules.len(), 3);
    for name in ["main", "util", "math"] {
        assert!(matches!(ast.get(&name.to_string()), Some(Module::Source { .. })));
    }
    assert!(ast.get(&"other".to_string()).is_none());
}

#[test]
fn program_is_in_path_order_whatever_the_completion_order() {
    let mut r = Resolution::new("b".to_string());
    assert_eq!(r.on_result("b".to_string(), source("b", &["a"])), strings(&["a"]));
    r.on_result("a".to_string(), source("a", &[]));
    let paths: Vec<String> = r.finish().modules.into_iter().map(|(p, _)| p).collect();
    assert_eq!(paths, strings(&["a", "b"]));

    let mut r = Resolution::new("main".to_string());
    r.on_result("main".to_string(), source("main", &["util", "math"]));
    r.on_result("util".to_string(), source("util", &[]));
    r.on_result("math".to_string(), source("math", &[]));
    let paths: Vec<String> = r.finish().modules.into_iter().map(|(p, _)| p).collect();
    assert_eq!(paths, strings(&["main", "math", "util"]));
}

#[test]
fn cycles_terminate() {
    let graph: &[(&str, &[&str])] = &[("a", &["b"]), ("b", &["a", "c"]), ("c", &["c", "a"])];
    assert_eq!(run("a", graph).unwrap(), strings(&["a", "b", "c"]));
}

#[test]
fn repeated_imports_are_requested_once() {
    let mut r = Resolution::new("m".to_string());
    let fresh = r.on_result("m".to_string(), source("m", &["x", "y", "x", "m", "y"]));
    assert_eq!(fresh, strings(&["x", "y"]));
}

#[test]
fn library_modules_import_nothing() {
    let mut r = Resolution::new("m".to_string());
    let fresh = r.on_result("m".to_string(), Module::Lib { path: "lib/m.blib".to_string() });
    assert!(fresh.is_empty());
    assert!(r.is_done());
}

#[test]
fn missing_import_aborts_with_its_name() {
    let graph: &[(&str, &[&str])] = &[("main", &["nowhere"])];
    let err = run("main", graph).unwrap_err();
    assert_eq!(err.module, "nowhere");
    assert_eq!(err.cause, CompileError::NotFound { module: "nowhere".to_string() });
    assert_eq!(
        err.message(),
        "failed to compile module \"nowhere\"\nunable to find module: \"nowhere\""
    );
}

#[test]
fn plan_follows_the_candidate_kind() {
    match plan(SourceKind::Lib, "lib/m.blib".to_string()) {
        Plan::Library(m) => assert_eq!(m, Module::Lib { path: "lib/m.blib".to_string() }),
        Plan::LowerSource(_) => panic!("a library is not lowered"),
    }
    match plan(SourceKind::Source, "src/m.beast".to_string()) {
        Plan::LowerSource(p) => assert_eq!(p, "src/m.beast"),
        Plan::Library(_) => panic!("a source file is lowered"),
    }
}

#[test]
fn error_descriptions() {
    assert_eq!(
        CompileError::Lower(beast::lower::LowerError::UnrecognizedRegister { register: ":ip".to_string() })
            .describe(),
        "unrecognized register identifier: \":ip\" is not one of [\":sp\", \":bp\"]"
    );
    assert_eq!(
        CompileError::Lower(beast::lower::LowerError::MalformedLiteral { literal: "0x100".to_string() })
            .describe(),
        "malformed numeric literal: \"0x100\""
    );
    assert_eq!(CompileError::Parse { message: "expected func".to_string() }.describe(), "expected func");
}
