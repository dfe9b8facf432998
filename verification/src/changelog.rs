//! Changelog releases: what goes into one, and how new text joins the text
//! that a changelog file already holds.
use crate::commit::Commit;
use crate::scope::{include_pattern, include_pattern_text, ScopeError};
use crate::text::chars_of;
use vstd::prelude::*;
use vstd::string::*;

verus! {

/// What the changelog command is told.
#[derive(Debug, Clone)]
pub struct ChangelogOptions {
    /// The version to release; it starts with `v`.
    pub tag: String,
    /// The workspace root.
    pub path: String,
}

/// One release of a changelog: the commits that made it, under the version
/// it was released as, with the version it followed.
#[derive(Debug)]
pub struct Release {
    /// The version of the release; `None` while it is not yet decided.
    pub version: Option<String>,
    pub commits: Vec<Commit>,
    /// When the release was made, in seconds since the epoch.
    pub timestamp: i64,
    /// The version of the release before this one, where there is one.
    pub previous_version: Option<String>,
}

/// A tag is valid when it starts with `v`.
pub open spec fn tag_is_valid(tag: Seq<char>) -> bool {
    tag.len() > 0 && tag[0] == 'v'
}

/// Whether a tag can name a release: it must start with `v`.
pub fn validate_tag(tag: &String) -> (ok: bool)
    ensures
        ok == tag_is_valid(tag@),
{
    let chars = chars_of(tag.as_str());
    chars.len() > 0 && chars[0] == 'v'
}

/// New changelog text joined to what the file held before: the new text
/// first, then the old.
pub fn prepend(new_text: &str, previous: &str) -> (r: String)
    ensures
        r@ == new_text@ + previous@,
{
    let mut r = String::from_str(new_text);
    r.append(previous);
    r
}

impl Release {
    /// A release of `commits` under `version`, made at `timestamp`.
    pub fn new(version: &str, commits: Vec<Commit>, timestamp: i64) -> (r: Release)
        ensures
            r.version matches Some(v) && v@ == version@,
            r.commits == commits,
            r.timestamp == timestamp,
            r.previous_version is None,
    {
        Release {
            version: Some(String::from_str(version)),
            commits,
            timestamp,
            previous_version: None,
        }
    }

    /// The release that is yet to get its version: the commits made since
    /// `current_version` was released.
    pub fn unreleased(current_version: &str, commits: Vec<Commit>) -> (r: Release)
        ensures
            r.version is None,
            r.commits == commits,
            r.timestamp == 0,
            r.previous_version matches Some(v) && v@ == current_version@,
    {
        Release {
            version: None,
            commits,
            timestamp: 0,
            previous_version: Some(String::from_str(current_version)),
        }
    }
}

/// Writes the changelog of every package for one tagged release.
#[derive(Debug)]
pub struct Changelog {
    options: ChangelogOptions,
    timestamp: i64,
}

impl Changelog {
    pub closed spec fn tag(&self) -> Seq<char> {
        self.options.tag@
    }

    pub closed spec fn root(&self) -> Seq<char> {
        self.options.path@
    }

    pub closed spec fn time(&self) -> int {
        self.timestamp as int
    }

    /// The changelog run for `options`, started at `timestamp`.
    pub fn new(options: ChangelogOptions, timestamp: i64) -> (r: Changelog)
        requires
            tag_is_valid(options.tag@),
        ensures
            r.tag() == options.tag@,
            r.root() == options.path@,
            r.time() == timestamp,
            tag_is_valid(r.tag()),
    {
        Changelog { options, timestamp }
    }

    /// The changelog run for `options`, where the tag is valid.
    pub fn checked(options: ChangelogOptions, timestamp: i64) -> (r: Option<Changelog>)
        ensures
            match r {
                Some(c) => tag_is_valid(options.tag@) && c.tag() == options.tag@ && c.root()
                    == options.path@ && c.time() == timestamp,
                None => !tag_is_valid(options.tag@),
            },
    {
        if validate_tag(&options.tag) {
            Some(Changelog::new(options, timestamp))
        } else {
            None
        }
    }

    /// The include pattern of the package in the directory `package_dir`.
    pub fn get_include_pattern(&self, package_dir: &str) -> (r: Result<String, ScopeError>)
        ensures
            match include_pattern_text(self.root(), package_dir@) {
                Ok(text) => r matches Ok(s) && s@ == text,
                Err(e) => r == Err::<String, ScopeError>(e),
            },
    {
        include_pattern(self.options.path.as_str(), package_dir)
    }

    /// The release of one package: its commits under the tag of the run, at
    /// the time the run started.
    pub fn release_for(&self, commits: Vec<Commit>) -> (r: Release)
        ensures
            r.version matches Some(v) && v@ == self.tag(),
            r.commits == commits,
            r.timestamp == self.time(),
            r.previous_version is None,
    {
        Release::new(self.options.tag.as_str(), commits, self.timestamp)
    }
}

} // verus!
