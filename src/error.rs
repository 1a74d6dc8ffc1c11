//! Errors of a compilation run.

use crate::lower::LowerError;
use vstd::prelude::*;

verus! {

/// Why one module could not be compiled.
#[derive(Clone, Debug, PartialEq, Eq)]
pub enum CompileError {
    /// No library or source file in any search directory matches the module.
    NotFound { module: String },
    /// The parser rejected the module's text; its rendered message.
    Parse { message: String },
    /// Reading a file failed.
    Io { message: String },
    /// Loading a precompiled library failed.
    Library { message: String },
    /// The parse tree could not be lowered.
    Lower(LowerError),
}

/// The first failure of a resolution: the module that failed, and why.
#[derive(Clone, Debug, PartialEq, Eq)]
pub struct ResolveError {
    pub module: String,
    pub cause: CompileError,
}

/// `s` between double quotes.
pub open spec fn quoted(s: Seq<char>) -> Seq<char> {
    "\""@ + s + "\""@
}

/// How a lowering error reads.
pub open spec fn lower_text(e: LowerError) -> Seq<char> {
    match e {
        LowerError::MalformedLiteral { literal } => "malformed numeric literal: "@ + quoted(literal@),
        LowerError::UnrecognizedRegister { register } => "unrecognized register identifier: "@
            + quoted(register@) + " is not one of [\":sp\", \":bp\"]"@,
        LowerError::UnknownIntegerType { token } => "internal fault: unknown integer type "@
            + quoted(token@),
        LowerError::UnexpectedNode { .. } => "internal fault: unexpected syntax node"@,
        LowerError::MissingNode { .. } => "internal fault: syntax node lacks a child"@,
        LowerError::MalformedModulePath { token } => "internal fault: malformed module path "@
            + quoted(token@),
    }
}

/// How a compilation error reads.
pub open spec fn compile_text(e: CompileError) -> Seq<char> {
    match e {
        CompileError::NotFound { module } => "unable to find module: "@ + quoted(module@),
        CompileError::Parse { message } => message@,
        CompileError::Io { message } => message@,
        CompileError::Library { message } => message@,
        CompileError::Lower(l) => lower_text(l),
    }
}

fn quote(s: &str) -> (r: String)
    ensures
        r@ == quoted(s@),
{
    "\"".to_owned().concat(s).concat("\"")
}

impl LowerError {
    /// A human-readable account of the error.
    pub fn describe(&self) -> (r: String)
        ensures
            r@ == lower_text(*self),
    {
        match self {
            LowerError::MalformedLiteral { literal } => "malformed numeric literal: ".to_owned().concat(
                quote(literal.as_str()).as_str(),
            ),
            LowerError::UnrecognizedRegister { register } => "unrecognized register identifier: ".to_owned().concat(
                quote(register.as_str()).as_str(),
            ).concat(" is not one of [\":sp\", \":bp\"]"),
            LowerError::UnknownIntegerType { token } => "internal fault: unknown integer type ".to_owned().concat(
                quote(token.as_str()).as_str(),
            ),
            LowerError::UnexpectedNode { .. } => "internal fault: unexpected syntax node".to_owned(),
            LowerError::MissingNode { .. } => "internal fault: syntax node lacks a child".to_owned(),
            LowerError::MalformedModulePath { token } => "internal fault: malformed module path ".to_owned().concat(
                quote(token.as_str()).as_str(),
            ),
        }
    }
}

impl CompileError {
    /// A human-readable account of the error.
    pub fn describe(&self) -> (r: String)
        ensures
            r@ == compile_text(*self),
    {
        match self {
            CompileError::NotFound { module } => "unable to find module: ".to_owned().concat(
                quote(module.as_str()).as_str(),
            ),
            CompileError::Parse { message } => message.clone(),
            CompileError::Io { message } => message.clone(),
            CompileError::Library { message } => message.clone(),
            CompileError::Lower(l) => l.describe(),
        }
    }
}

impl ResolveError {
    /// A human-readable account of the failure: the module, then its cause.
    pub fn message(&self) -> (r: String)
        ensures
            r@ == "failed to compile module "@ + quoted(self.module@) + "\n"@ + compile_text(
                self.cause,
            ),
    {
        "failed to compile module ".to_owned().concat(quote(self.module.as_str()).as_str()).concat(
            "\n",
        ).concat(self.cause.describe().as_str())
    }
}

} // verus!
