//! Generates a Sublime Text project description for an sbt build: it gates on
//! the declared sbt version, classifies the build tool's printed module list,
//! derives production and test source roots for each module, and plans the
//! conflict-safe write of the resulting project file.

pub mod export;
pub mod model;
pub mod sbt;
pub mod text;
pub mod writer;

pub use export::{build_sublime_project, get_prod_and_test_sources};
pub use model::{
    Confirmation, PathObject, ProdSource, ProjectName, ProjectType, SBTExecution, SBTVersion,
    ScoggleObject, SettingsObject, SublimeProject, SupportedSBTVersion, TestSource, WriteOutcome,
    WriterAction,
};
pub use sbt::{
    classify_lines, default_project_name, get_base_directories, get_project_name,
    sublime_project_file_name, validate_sbt_version, verify_sbt_version,
};
pub use writer::{parse_confirmation, plan_after_create, plan_after_overwrite, plan_after_prompt};
