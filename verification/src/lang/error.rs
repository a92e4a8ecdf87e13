//! Errors of parsing, normalization and lowering.
use vstd::prelude::*;
use crate::text::{decimal, push_str, u64_to_decimal};

verus! {

/// All errors that can arise during parsing, normalization, and lowering of a
/// Conclave source file.
#[derive(Debug, Clone, PartialEq, Eq)]
pub enum LangError {
    UnexpectedToken { expected: String, got: String, line: usize },
    UnexpectedEof { expected: String },
    DuplicateDeclaration(String),
    UnknownCapability(String),
    VersionMismatch { expected: String, got: String },
    ShadowedBinding(String),
    UndefinedBinding(String),
    NoGoals,
    MapRequiresUrlCount,
    InvalidImportHash { name: String, hash: String },
    PureBlockContainsCapability(String),
    ReduceBodyMissingAssign(String),
    GoalNotFound(String),
    ImportResolutionRequired(String),
    ImportNotFound(String),
    ArityMismatch { fn_name: String, expected: usize, got: usize },
}

/// The model of a language error: texts as character sequences.
pub enum LangErrorV {
    UnexpectedToken { expected: Seq<char>, got: Seq<char>, line: nat },
    UnexpectedEof { expected: Seq<char> },
    DuplicateDeclaration(Seq<char>),
    UnknownCapability(Seq<char>),
    VersionMismatch { expected: Seq<char>, got: Seq<char> },
    ShadowedBinding(Seq<char>),
    UndefinedBinding(Seq<char>),
    NoGoals,
    MapRequiresUrlCount,
    InvalidImportHash { name: Seq<char>, hash: Seq<char> },
    PureBlockContainsCapability(Seq<char>),
    ReduceBodyMissingAssign(Seq<char>),
    GoalNotFound(Seq<char>),
    ImportResolutionRequired(Seq<char>),
    ImportNotFound(Seq<char>),
    ArityMismatch { fn_name: Seq<char>, expected: nat, got: nat },
}

impl View for LangError {
    type V = LangErrorV;

    open spec fn view(&self) -> LangErrorV {
        match self {
            LangError::UnexpectedToken { expected, got, line } =>
                LangErrorV::UnexpectedToken { expected: expected@, got: got@, line: *line as nat },
            LangError::UnexpectedEof { expected } => LangErrorV::UnexpectedEof { expected: expected@ },
            LangError::DuplicateDeclaration(s) => LangErrorV::DuplicateDeclaration(s@),
            LangError::UnknownCapability(s) => LangErrorV::UnknownCapability(s@),
            LangError::VersionMismatch { expected, got } =>
                LangErrorV::VersionMismatch { expected: expected@, got: got@ },
            LangError::ShadowedBinding(s) => LangErrorV::ShadowedBinding(s@),
            LangError::UndefinedBinding(s) => LangErrorV::UndefinedBinding(s@),
            LangError::NoGoals => LangErrorV::NoGoals,
            LangError::MapRequiresUrlCount => LangErrorV::MapRequiresUrlCount,
            LangError::InvalidImportHash { name, hash } =>
                LangErrorV::InvalidImportHash { name: name@, hash: hash@ },
            LangError::PureBlockContainsCapability(s) => LangErrorV::PureBlockContainsCapability(s@),
            LangError::ReduceBodyMissingAssign(s) => LangErrorV::ReduceBodyMissingAssign(s@),
            LangError::GoalNotFound(s) => LangErrorV::GoalNotFound(s@),
            LangError::ImportResolutionRequired(s) => LangErrorV::ImportResolutionRequired(s@),
            LangError::ImportNotFound(s) => LangErrorV::ImportNotFound(s@),
            LangError::ArityMismatch { fn_name, expected, got } =>
                LangErrorV::ArityMismatch { fn_name: fn_name@, expected: *expected as nat, got: *got as nat },
        }
    }
}

/// An unexpected-token error.
pub fn unexpected(expected: &str, got: String, line: usize) -> (e: LangError)
    ensures
        e@ == (LangErrorV::UnexpectedToken { expected: expected@, got: got@, line: line as nat }),
{
    LangError::UnexpectedToken { expected: String::from_str(expected), got, line }
}

/// An unexpected-end-of-input error.
pub fn unexpected_eof(expected: &str) -> (e: LangError)
    ensures
        e@ == (LangErrorV::UnexpectedEof { expected: expected@ }),
{
    LangError::UnexpectedEof { expected: String::from_str(expected) }
}

/// The message of a LangError value.
pub open spec fn lang_message(e: LangErrorV) -> Seq<char> {
    match e {
        LangErrorV::UnexpectedToken { expected, got, line } => "unexpected token at line "@ + decimal(line) + ": expected "@ + expected + ", got '"@ + got + "'"@,
        LangErrorV::UnexpectedEof { expected } => "unexpected end of file: expected "@ + expected,
        LangErrorV::DuplicateDeclaration(x) => "duplicate declaration: '"@ + x + "'"@,
        LangErrorV::UnknownCapability(x) => "unknown capability or intrinsic: '"@ + x + "'"@,
        LangErrorV::VersionMismatch { expected, got } => "version mismatch: expected '"@ + expected + "', got '"@ + got + "'"@,
        LangErrorV::ShadowedBinding(x) => "shadowed binding: '"@ + x + "' is already defined in this scope"@,
        LangErrorV::UndefinedBinding(x) => "undefined binding: '"@ + x + "'"@,
        LangErrorV::NoGoals => "no goals declared in module"@,
        LangErrorV::MapRequiresUrlCount => "lowering requires url_count > 0 for map constructs"@,
        LangErrorV::InvalidImportHash { name, hash } => "invalid import hash for '"@ + name + "': '"@ + hash + "' (must be sha256:<64 hex chars>)"@,
        LangErrorV::PureBlockContainsCapability(x) => "pure block contains capability '"@ + x + "': only intrinsics are allowed"@,
        LangErrorV::ReduceBodyMissingAssign(x) => "reduce body must end with '"@ + x + " = <expr>;' accumulator assignment"@,
        LangErrorV::GoalNotFound(x) => "goal '"@ + x + "' not found in module"@,
        LangErrorV::ImportResolutionRequired(x) => "import '"@ + x + "' cannot be resolved: no module cache provided"@,
        LangErrorV::ImportNotFound(x) => "imported module not found in cache: '"@ + x + "'"@,
        LangErrorV::ArityMismatch { fn_name, expected, got } => "arity mismatch calling '"@ + fn_name + "': expected "@ + decimal(expected) + " argument(s), got "@ + decimal(got),
    }
}

impl LangError {
    /// The message of the error.
    pub fn to_string(&self) -> (s: String)
        ensures
            s@ == lang_message(self@),
    {
        match self {
            LangError::UnexpectedToken { expected, got, line } => {
                let mut s = String::from_str("unexpected token at line ");
                let d = u64_to_decimal(*line as u64);
                push_str(&mut s, d.as_str());
                push_str(&mut s, ": expected ");
                push_str(&mut s, expected.as_str());
                push_str(&mut s, ", got '");
                push_str(&mut s, got.as_str());
                push_str(&mut s, "'");
                s
            },
            LangError::UnexpectedEof { expected } => {
                let mut s = String::from_str("unexpected end of file: expected ");
                push_str(&mut s, expected.as_str());
                s
            },
            LangError::DuplicateDeclaration(x) => {
                let mut s = String::from_str("duplicate declaration: '");
                push_str(&mut s, x.as_str());
                push_str(&mut s, "'");
                s
            },
            LangError::UnknownCapability(x) => {
                let mut s = String::from_str("unknown capability or intrinsic: '");
                push_str(&mut s, x.as_str());
                push_str(&mut s, "'");
                s
            },
            LangError::VersionMismatch { expected, got } => {
                let mut s = String::from_str("version mismatch: expected '");
                push_str(&mut s, expected.as_str());
                push_str(&mut s, "', got '");
                push_str(&mut s, got.as_str());
                push_str(&mut s, "'");
                s
            },
            LangError::ShadowedBinding(x) => {
                let mut s = String::from_str("shadowed binding: '");
                push_str(&mut s, x.as_str());
                push_str(&mut s, "' is already defined in this scope");
                s
            },
            LangError::UndefinedBinding(x) => {
                let mut s = String::from_str("undefined binding: '");
                push_str(&mut s, x.as_str());
                push_str(&mut s, "'");
                s
            },
            LangError::NoGoals => {
                let mut s = String::from_str("no goals declared in module");
                s
            },
            LangError::MapRequiresUrlCount => {
                let mut s = String::from_str("lowering requires url_count > 0 for map constructs");
                s
            },
            LangError::InvalidImportHash { name, hash } => {
                let mut s = String::from_str("invalid import hash for '");
                push_str(&mut s, name.as_str());
                push_str(&mut s, "': '");
                push_str(&mut s, hash.as_str());
                push_str(&mut s, "' (must be sha256:<64 hex chars>)");
                s
            },
            LangError::PureBlockContainsCapability(x) => {
                let mut s = String::from_str("pure block contains capability '");
                push_str(&mut s, x.as_str());
                push_str(&mut s, "': only intrinsics are allowed");
                s
            },
            LangError::ReduceBodyMissingAssign(x) => {
                let mut s = String::from_str("reduce body must end with '");
                push_str(&mut s, x.as_str());
                push_str(&mut s, " = <expr>;' accumulator assignment");
                s
            },
            LangError::GoalNotFound(x) => {
                let mut s = String::from_str("goal '");
                push_str(&mut s, x.as_str());
                push_str(&mut s, "' not found in module");
                s
            },
            LangError::ImportResolutionRequired(x) => {
                let mut s = String::from_str("import '");
                push_str(&mut s, x.as_str());
                push_str(&mut s, "' cannot be resolved: no module cache provided");
                s
            },
            LangError::ImportNotFound(x) => {
                let mut s = String::from_str("imported module not found in cache: '");
                push_str(&mut s, x.as_str());
                push_str(&mut s, "'");
                s
            },
            LangError::ArityMismatch { fn_name, expected, got } => {
                let mut s = String::from_str("arity mismatch calling '");
                push_str(&mut s, fn_name.as_str());
                push_str(&mut s, "': expected ");
                let d = u64_to_decimal(*expected as u64);
                push_str(&mut s, d.as_str());
                push_str(&mut s, " argument(s), got ");
                let d = u64_to_decimal(*got as u64);
                push_str(&mut s, d.as_str());
                s
            },
        }
    }
}

} // verus!
