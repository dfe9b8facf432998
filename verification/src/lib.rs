//! Release operations for a workspace of packages that depend on each other:
//! the order in which to publish them, the next version from the commit
//! history, the commits that belong to each package, and the sequence of a
//! publish run.
pub mod cargo_command;
pub mod changelog;
pub mod commit;
pub mod config;
pub mod graph;
pub mod order;
pub mod paths;
pub mod publish;
pub mod scope;
pub mod text;
pub mod update;
pub mod version;
pub mod versioning;

use vstd::prelude::*;

verus! {

/// What every command is told: the release set to work on and the
/// workspace root.
#[derive(Debug, Clone)]
pub struct Options {
    pub release: String,
    pub path: String,
    /// Publish without uploading.
    pub dry_run: bool,
}

/// The commands of the tool.
#[derive(Debug, Clone)]
pub enum ReleaseCommand {
    /// Generate the changelogs and bump the versions of all published packages.
    Update(Options),
    /// Generate the changelog summary.
    Changelog(Options),
    /// Regenerate the changelogs of all published packages.
    RegenerateChangelogs(Options),
    /// Publish the packages in release order.
    Publish(Options),
}

impl ReleaseCommand {
    /// What the command was told.
    pub fn options(&self) -> (r: &Options)
        ensures
            *r == match *self {
                ReleaseCommand::Update(o) => o,
                ReleaseCommand::Changelog(o) => o,
                ReleaseCommand::RegenerateChangelogs(o) => o,
                ReleaseCommand::Publish(o) => o,
            },
    {
        match self {
            ReleaseCommand::Update(o) => o,
            ReleaseCommand::Changelog(o) => o,
            ReleaseCommand::RegenerateChangelogs(o) => o,
            ReleaseCommand::Publish(o) => o,
        }
    }
}

} // verus!
