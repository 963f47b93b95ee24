//! The data model: the project descriptor that is eventually serialized, and
//! the tagged outcomes of each fallible step of the pipeline.

use vstd::prelude::*;

verus! {

/// The full in-memory editor-configuration object. It is built once per run,
/// immutable after construction, and serialized exactly once.
#[derive(Debug, PartialEq, Eq, Clone)]
pub struct SublimeProject {
    pub folders: Vec<PathObject>,
    pub settings: SettingsObject,
}

/// One workspace folder entry; the descriptor always holds exactly one, `"."`.
#[derive(Debug, PartialEq, Eq, Clone)]
pub struct PathObject {
    pub path: String,
}

#[derive(Debug, PartialEq, Eq, Clone)]
pub struct SettingsObject {
    pub scoggle: ScoggleObject,
}

/// The per-module source roots, index-aligned, and the fixed test-file
/// suffix patterns.
#[derive(Debug, PartialEq, Eq, Clone)]
pub struct ScoggleObject {
    pub production_srcs: Vec<String>,
    pub test_srcs: Vec<String>,
    pub test_suffixes: Vec<String>,
}

/// A production source root derived from one module's base directory.
#[derive(Debug, PartialEq, Eq, Clone)]
pub struct ProdSource(pub String);

/// A test source root derived from one module's base directory.
#[derive(Debug, PartialEq, Eq, Clone)]
pub struct TestSource(pub String);

/// The ordered list of module base directories the build tool reported.
#[derive(Debug, PartialEq, Eq, Clone)]
pub struct ProjectType(pub Vec<String>);

/// Outcome of one invocation of the build tool.
#[derive(Debug, PartialEq, Eq, Clone)]
pub enum SBTExecution {
    CouldNotRun(String),
    CouldNotDecodeOutput(String),
    UnrecognisedOutputStructure(Vec<String>),
    SuccessfulExecution(ProjectType),
}

/// Outcome of the version gate.
#[derive(Debug, PartialEq, Eq, Clone)]
pub enum SBTVersion {
    Valid,
    UnsupportedVersion(String, SupportedSBTVersion),
    UnknownVersionString(String),
    BuildPropertiesNotFound,
    BuildSBTNotFound,
}

/// The minimum supported sbt version, as a dotted triple.
#[derive(Debug, PartialEq, Eq, Clone)]
pub struct SupportedSBTVersion(pub String);

/// How the output file should be named: after the working directory, or by a
/// generated fallback when that name cannot be determined.
#[derive(Debug, PartialEq, Eq, Clone)]
pub enum ProjectName {
    ProjectDir(String),
    Random(),
}

/// The operator's answer to the overwrite prompt.
#[derive(Debug, PartialEq, Eq, Clone)]
pub enum Confirmation {
    Yes,
    No,
}

/// Outcome of one attempt to write the output file.
#[derive(Debug, PartialEq, Eq, Clone)]
pub enum WriteOutcome {
    Created,
    AlreadyExists,
    IOFailure(String),
}

/// The next step the write orchestration must take.
#[derive(Debug, PartialEq, Eq, Clone)]
pub enum WriterAction {
    ReportSuccess,
    PromptOverwrite,
    AttemptOverwrite,
    DumpToStdout,
}

} // verus!
