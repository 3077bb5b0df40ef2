//! Compiling projects with `zksolc`: inputs, outputs and artifacts.
use crate::error::SolcError;
use crate::text;
use crate::zksync::compile::project;
use crate::zksync::compile::project::{Project, ProjectCompileOutput, ProjectCompiler};
use crate::zksync::compile::stages;
use crate::zksync::compile::stages::{compile_files, Opening, Outcome, Stage};
use vstd::prelude::*;

pub mod artifact_output;
pub mod artifacts;
pub mod cache;
pub mod change_laws;
pub mod compile;
pub mod compilers;
pub mod config;
pub mod view_laws;

verus! {

/// Returns the path to the artifacts directory
pub fn project_artifacts_path(project: &Project) -> (res: &String)
    ensures
        *res == project.paths.zksync_artifacts,
{
    &project.paths.zksync_artifacts
}

/// Returns the path to the cache file
pub fn project_cache_path(project: &Project) -> (res: &String)
    ensures
        *res == project.paths.zksync_cache,
{
    &project.paths.zksync_cache
}

/// What comes of compiling a project: of those of its files that no pattern of contracts to avoid
/// matches
pub fn project_compile(
    project: &Project,
    files: Vec<String>,
    avoid: Option<Vec<Vec<bool>>>,
    opening: Opening,
    outcome: Outcome<'_>,
) -> (res: Result<ProjectCompileOutput, SolcError>)
    requires
        avoid matches Some(matches) ==> matches@.len() == files@.len(),
        stages::can_all_come(
            *project,
            project::chosen_files(text::texts(files@), avoid),
            opening,
            outcome,
        ),
    ensures
        stages::is_compiled(res, *project, opening, outcome),
{
    match ProjectCompiler::new(project, files, avoid) {
        Stage::Read(project, chosen) => compile_files(project, chosen, opening, outcome),
        _ => vstd::pervasive::unreached(),
    }
}

/// What comes of compiling the given files, whether or not a pattern of contracts to avoid
/// matches them
pub fn project_compile_files(
    project: &Project,
    files: Vec<String>,
    opening: Opening,
    outcome: Outcome<'_>,
) -> (res: Result<ProjectCompileOutput, SolcError>)
    requires
        stages::can_all_come(*project, text::texts(files@), opening, outcome),
    ensures
        stages::is_compiled(res, *project, opening, outcome),
{
    compile_files(project, files, opening, outcome)
}

} // verus!
