//! What the user can ask for on the command line.
use vstd::prelude::*;
use crate::manifest::Packaging;
use crate::project::{Requested, TestFilter};
use crate::text::copy_opt;

verus! {

/// How results are printed.
#[derive(Clone, Copy, Debug, PartialEq, Eq, Structural)]
pub enum OutputFormat {
    Text,
    Json,
}

impl Default for OutputFormat {
    fn default() -> (r: OutputFormat)
        ensures
            r == OutputFormat::Text,
    {
        OutputFormat::Text
    }
}

/// A command line.
#[derive(Debug, PartialEq, Eq)]
pub struct Cli {
    pub format: OutputFormat,
    pub command: Commands,
}

/// What is to be done.
#[derive(Debug, PartialEq, Eq)]
pub enum Commands {
    /// Compile and package the project.
    Build(BuildCommand),
    /// Build and run the project.
    Run(RunCommand),
    /// Run tests.
    Test(TestCommand),
    /// Resolve dependencies and update the lock.
    Sync(SyncCommand),
    /// Remove what was built, or purge stale libraries.
    Clean(CleanCommand),
}

/// Which project is meant.
#[derive(Debug, PartialEq, Eq)]
pub struct ProjectArgs {
    /// The directory that all other paths are relative to.
    pub base: Option<String>,
    /// The manifest, or the directory that it is in.
    pub manifest: Option<String>,
}

/// How the project is built.
#[derive(Debug, PartialEq, Eq)]
pub struct BuildArgs {
    pub project_args: ProjectArgs,
    /// Where the artifact goes.
    pub out: Option<String>,
    pub packaging: Option<Packaging>,
    /// The entry class, in place of the one in the manifest.
    pub entry: Option<String>,
}

/// Compile and package the project.
#[derive(Debug, PartialEq, Eq)]
pub struct BuildCommand {
    pub build_args: BuildArgs,
}

/// Resolve dependencies and update the lock.
#[derive(Debug, PartialEq, Eq)]
pub struct SyncCommand {
    pub project_args: ProjectArgs,
}

/// Remove what was built, or purge stale libraries.
#[derive(Debug, PartialEq, Eq)]
pub struct CleanCommand {
    pub project_args: ProjectArgs,
    /// Remove the libraries that are not in the lock, and nothing else.
    pub purge: bool,
}

/// Run tests.
#[derive(Debug, PartialEq, Eq)]
pub struct TestCommand {
    pub build_args: BuildArgs,
    pub class: Option<String>,
    pub method: Option<String>,
    pub tag: Option<String>,
    pub exclude_tag: Option<String>,
}

/// Build and run the project.
#[derive(Debug, PartialEq, Eq)]
pub struct RunCommand {
    pub build_args: BuildArgs,
    /// What is handed to the program.
    pub args: Vec<String>,
}

impl BuildArgs {
    /// What is asked for in place of what the manifest says.
    pub fn requested(&self) -> (r: Requested)
        ensures
            r == (Requested { out: self.out, packaging: self.packaging, entry: self.entry }),
    {
        Requested { out: copy_opt(&self.out), packaging: self.packaging, entry: copy_opt(&self.entry) }
    }
}

impl TestCommand {
    /// Which tests are to be run.
    pub fn filter(&self) -> (r: TestFilter)
        ensures
            r == (TestFilter {
                class: self.class,
                method: self.method,
                tag: self.tag,
                exclude_tag: self.exclude_tag,
            }),
    {
        TestFilter {
            class: copy_opt(&self.class),
            method: copy_opt(&self.method),
            tag: copy_opt(&self.tag),
            exclude_tag: copy_opt(&self.exclude_tag),
        }
    }
}

} // verus!
