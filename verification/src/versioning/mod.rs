//! The files that carry a version, and how a release rewrites them.
pub mod cargo;
pub mod package_json;

use crate::versioning::cargo::{
    edit_view, with_package_version, with_workspace_dependencies, set_package_version,
    set_workspace_dependency_versions, ChangeView, ManifestEditView,
};
use crate::versioning::package_json::{set_json_version, with_json_version};
use vstd::prelude::*;

verus! {

/// Why a manifest could not be read or rewritten.
#[derive(Debug, PartialEq, Eq)]
pub enum ManifestError {
    /// The file's text is not of its format.
    Parse,
    /// The path has no last component, so no directory holds it.
    NoFileName,
    /// The file's name is neither `Cargo.toml` nor `package.json`.
    Unrecognized,
    /// The manifest has no package name.
    MissingPackageName,
    /// The manifest has no `package.version` value.
    MissingPackageVersion,
    /// The manifest has no `workspace.dependencies` table.
    MissingWorkspaceDependencies,
    /// `workspace.dependencies` holds no inline table with a `version` for
    /// the package `name` of the workspace.
    MissingWorkspaceDependency { name: String },
}

pub enum ManifestErrorView {
    Parse,
    NoFileName,
    Unrecognized,
    MissingPackageName,
    MissingPackageVersion,
    MissingWorkspaceDependencies,
    MissingWorkspaceDependency { name: Seq<char> },
}

impl View for ManifestError {
    type V = ManifestErrorView;

    open spec fn view(&self) -> ManifestErrorView {
        match self {
            ManifestError::Parse => ManifestErrorView::Parse,
            ManifestError::NoFileName => ManifestErrorView::NoFileName,
            ManifestError::Unrecognized => ManifestErrorView::Unrecognized,
            ManifestError::MissingPackageName => ManifestErrorView::MissingPackageName,
            ManifestError::MissingPackageVersion => ManifestErrorView::MissingPackageVersion,
            ManifestError::MissingWorkspaceDependencies => ManifestErrorView::MissingWorkspaceDependencies,
            ManifestError::MissingWorkspaceDependency { name } => ManifestErrorView::MissingWorkspaceDependency {
                name: name@,
            },
        }
    }
}

/// What a change writes into a file.
#[derive(Debug)]
pub enum Change {
    /// Set the `version` of each named package under `workspace.dependencies`.
    WorkspaceDependencies { names: Vec<String> },
    /// Set `package.version`.
    PackageVersion,
    /// Set the top-level `version` of a JSON object.
    JsonVersion,
}

/// One file to rewrite for a release: read the file at `path`, apply the
/// change for `version`, write the result back.
#[derive(Debug)]
pub struct ManifestEdit {
    pub path: String,
    pub change: Change,
    pub version: String,
}

/// The text of a file after an edit is applied to it.
pub open spec fn applied(edit: ManifestEditView, text: Seq<char>) -> Result<
    Seq<char>,
    ManifestErrorView,
> {
    match edit.change {
        ChangeView::WorkspaceDependencies { names } => with_workspace_dependencies(
            text,
            names,
            edit.version,
            names.len() as int,
        ),
        ChangeView::PackageVersion => with_package_version(text, edit.version),
        ChangeView::JsonVersion => with_json_version(text, edit.version),
    }
}

impl ManifestEdit {
    /// Applies the edit to the text of the file at `path`; gives the text to
    /// write back.
    pub fn apply(&self, text: &str) -> (r: Result<String, ManifestError>)
        ensures
            match applied(edit_view(*self), text@) {
                Ok(next) => r matches Ok(s) && s@ == next,
                Err(e) => r matches Err(f) && f@ == e,
            },
    {
        match &self.change {
            Change::WorkspaceDependencies { names } => set_workspace_dependency_versions(
                text,
                names,
                self.version.as_str(),
            ),
            Change::PackageVersion => set_package_version(text, self.version.as_str()),
            Change::JsonVersion => set_json_version(text, self.version.as_str()),
        }
    }
}

} // verus!
