//! Command-line option data, free of any argument-parsing machinery.

use vstd::prelude::*;

verus! {

/// The one subcommand this tool offers.
pub enum Command {
    TableDeps(TableDepsOption),
}

/// Options controlling which manifests are converted and how the result is
/// emitted.
pub struct TableDepsOption {
    /// Explicit path to a manifest, if any.
    pub manifest_path: Option<String>,
    /// Names of the packages whose manifests should be converted.
    pub package: Vec<String>,
    /// Convert every package of the workspace.
    pub workspace: bool,
    /// Packages to leave out when `workspace` is set.
    pub exclude: Vec<String>,
    /// Print the converted manifest instead of overwriting the file.
    pub dry_run: bool,
}

impl TableDepsOption {
    pub fn new(
        manifest_path: Option<String>,
        package: Vec<String>,
        workspace: bool,
        exclude: Vec<String>,
        dry_run: bool,
    ) -> (r: Self)
        ensures
            r.manifest_path == manifest_path,
            r.package == package,
            r.workspace == workspace,
            r.exclude == exclude,
            r.dry_run == dry_run,
    {
        TableDepsOption { manifest_path, package, workspace, exclude, dry_run }
    }

    pub fn manifest_path(&self) -> (r: &Option<String>)
        ensures
            r == self.manifest_path,
    {
        &self.manifest_path
    }

    pub fn package(&self) -> (r: &Vec<String>)
        ensures
            r == self.package,
    {
        &self.package
    }

    pub fn workspace(&self) -> (r: bool)
        ensures
            r == self.workspace,
    {
        self.workspace
    }

    pub fn exclude(&self) -> (r: &Vec<String>)
        ensures
            r == self.exclude,
    {
        &self.exclude
    }

    pub fn dry_run(&self) -> (r: bool)
        ensures
            r == self.dry_run,
    {
        self.dry_run
    }
}

} // verus!
