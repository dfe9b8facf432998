//! The release sets of a workspace: which files carry the version of each,
//! and which packages those files govern.
use crate::paths::{file_name, file_name_of};
use crate::versioning::cargo::{
    edit_views, manifest_edits, manifest_read, CargoToml, CargoView, ChangeView,
    ManifestEditView, WorkspaceMember,
};
use crate::versioning::package_json::{described_package, PackageJson};
use crate::versioning::{ManifestEdit, ManifestError, ManifestErrorView};
use crate::text::same_text;
use vstd::prelude::*;
use vstd::string::*;

verus! {

/// One package that a versioned file governs.
#[derive(Debug)]
pub struct VersionedPackage {
    pub name: String,
    /// The directory of the package.
    pub dir: String,
    /// The path of the package's manifest.
    pub path: String,
}

impl Clone for VersionedPackage {
    fn clone(&self) -> (r: Self)
        ensures
            r == *self,
    {
        VersionedPackage {
            name: self.name.clone(),
            dir: self.dir.clone(),
            path: self.path.clone(),
        }
    }
}

/// A package as a value.
pub struct VersionedPackageView {
    pub name: Seq<char>,
    pub dir: Seq<char>,
    pub path: Seq<char>,
}

pub open spec fn package_view(p: VersionedPackage) -> VersionedPackageView {
    VersionedPackageView { name: p.name@, dir: p.dir@, path: p.path@ }
}

pub open spec fn package_views(packages: Seq<VersionedPackage>) -> Seq<VersionedPackageView> {
    packages.map_values(|p: VersionedPackage| package_view(p))
}

/// A copy of each package.
pub fn clone_packages(packages: &Vec<VersionedPackage>) -> (r: Vec<VersionedPackage>)
    ensures
        r@ == packages@,
{
    let mut out: Vec<VersionedPackage> = Vec::new();
    let mut i: usize = 0;
    while i < packages.len()
        invariant
            i <= packages.len(),
            out@ == packages@.take(i as int),
        decreases packages.len() - i,
    {
        out.push(packages[i].clone());
        assert(out@ =~= packages@.take(i + 1));
        i += 1;
    }
    assert(packages@.take(packages@.len() as int) =~= packages@);
    out
}

/// Why a release set could not be had.
#[derive(Clone, Copy, Debug, PartialEq, Eq, Structural)]
pub enum ConfigError {
    /// The configuration names no release set so called.
    ReleaseNotFound,
}

/// What a versioned file holds.
#[derive(Debug)]
pub enum VersionedContent {
    Nothing,
    Cargo(CargoToml),
    PackageJson(PackageJson),
}

impl Default for VersionedContent {
    fn default() -> (r: Self)
        ensures
            r is Nothing,
    {
        VersionedContent::Nothing
    }
}

/// A file that carries the version of a release set.
#[derive(Debug)]
pub struct VersionedFile {
    pub path: String,
    pub content: VersionedContent,
}

/// A named group of versioned files that are bumped and changelogged
/// together.
#[derive(Debug)]
pub struct ReleaseSet {
    pub name: String,
    /// Where set, only commits whose scope holds one of these texts count
    /// towards the next version.
    pub scopes_for_breaking_change: Option<Vec<String>>,
    pub versioned_files: Vec<VersionedFile>,
}

/// The release sets that the configuration file declares.
#[derive(Debug)]
pub struct ReleaseConfig {
    pub release_sets: Vec<ReleaseSet>,
}

/// What a versioned file holds, as a value.
pub enum ContentView {
    Nothing,
    Cargo(CargoView),
    PackageJson(VersionedPackageView),
}

impl View for VersionedContent {
    type V = ContentView;

    open spec fn view(&self) -> ContentView {
        match self {
            VersionedContent::Nothing => ContentView::Nothing,
            VersionedContent::Cargo(cargo) => ContentView::Cargo(cargo@),
            VersionedContent::PackageJson(descriptor) => ContentView::PackageJson(
                descriptor.package(),
            ),
        }
    }
}

/// The content of the versioned file at `path`, by the file's name.
pub open spec fn content_read(
    path: Seq<char>,
    text: Seq<char>,
    members: Seq<WorkspaceMember>,
) -> Result<ContentView, ManifestErrorView> {
    match file_name_of(path) {
        None => Err(ManifestErrorView::NoFileName),
        Some(name) => if name == "Cargo.toml"@ {
            match manifest_read(path, text, members) {
                Ok(manifest) => Ok(ContentView::Cargo(manifest)),
                Err(e) => Err(e),
            }
        } else if name == "package.json"@ {
            match described_package(path, text) {
                Ok(p) => Ok(ContentView::PackageJson(p)),
                Err(e) => Err(e),
            }
        } else {
            Err(ManifestErrorView::Unrecognized)
        },
    }
}

/// The packages a content governs.
pub open spec fn content_packages(content: ContentView) -> Seq<VersionedPackageView> {
    match content {
        ContentView::Nothing => Seq::empty(),
        ContentView::Cargo(manifest) => manifest.packages,
        ContentView::PackageJson(package) => seq![package],
    }
}

/// The edits that give every package a content governs `version`.
pub open spec fn content_edits(content: ContentView, version: Seq<char>) -> Seq<ManifestEditView> {
    match content {
        ContentView::Nothing => Seq::empty(),
        ContentView::Cargo(manifest) => manifest_edits(
            manifest.path,
            manifest.is_workspace,
            manifest.packages,
            version,
        ),
        ContentView::PackageJson(package) => seq![
            ManifestEditView { path: package.path, change: ChangeView::JsonVersion, version },
        ],
    }
}

/// The packages of the first `upto` versioned files, file by file.
pub open spec fn packages_of_files(files: Seq<VersionedFile>, upto: int) -> Seq<
    VersionedPackageView,
>
    decreases upto,
{
    if upto <= 0 {
        Seq::empty()
    } else {
        packages_of_files(files, upto - 1) + files[upto - 1].content.governed()
    }
}

/// The edits of the first `upto` versioned files, file by file.
pub open spec fn edits_of_files(files: Seq<VersionedFile>, version: Seq<char>, upto: int) -> Seq<
    ManifestEditView,
>
    decreases upto,
{
    if upto <= 0 {
        Seq::empty()
    } else {
        edits_of_files(files, version, upto - 1) + files[upto - 1].content.edits(version)
    }
}

/// The first position at or after `start` of a release set called `name`,
/// or the number of sets where there is none.
pub open spec fn release_position(sets: Seq<ReleaseSet>, name: Seq<char>, start: int) -> int
    decreases sets.len() - start,
{
    if start < 0 || start >= sets.len() {
        sets.len() as int
    } else if sets[start].name@ == name {
        start
    } else {
        release_position(sets, name, start + 1)
    }
}

impl VersionedContent {
    /// The packages the content governs.
    pub open spec fn governed(&self) -> Seq<VersionedPackageView> {
        content_packages(self@)
    }

    /// The edits that give every governed package `version`.
    pub open spec fn edits(&self, version: Seq<char>) -> Seq<ManifestEditView> {
        content_edits(self@, version)
    }

    /// The content of the versioned file at `path`, whose text is `text`: a
    /// Cargo manifest where the file is called `Cargo.toml`, a descriptor
    /// where it is called `package.json`. `members` are the packages of the
    /// workspace where the file is a workspace root.
    pub fn read(path: &str, text: &str, members: &Vec<WorkspaceMember>) -> (r: Result<
        VersionedContent,
        ManifestError,
    >)
        ensures
            match content_read(path@, text@, members@) {
                Ok(content) => r matches Ok(found) && found@ == content,
                Err(e) => r matches Err(f) && f@ == e,
            },
    {
        let name = match file_name(path) {
            Some(n) => n,
            None => {
                return Err(ManifestError::NoFileName);
            },
        };
        if same_text(name.as_str(), "Cargo.toml") {
            match CargoToml::new(path, text, members) {
                Ok(cargo) => Ok(VersionedContent::Cargo(cargo)),
                Err(e) => Err(e),
            }
        } else if same_text(name.as_str(), "package.json") {
            match PackageJson::new(path, text) {
                Ok(descriptor) => Ok(VersionedContent::PackageJson(descriptor)),
                Err(e) => Err(e),
            }
        } else {
            Err(ManifestError::Unrecognized)
        }
    }

    /// The packages the content governs.
    pub fn versioned_packages(&self) -> (r: Vec<VersionedPackage>)
        ensures
            package_views(r@) == self.governed(),
    {
        match self {
            VersionedContent::Nothing => {
                let r: Vec<VersionedPackage> = Vec::new();
                assert(package_views(r@) =~= Seq::empty());
                r
            },
            VersionedContent::Cargo(cargo) => cargo.packages(),
            VersionedContent::PackageJson(descriptor) => {
                let r = descriptor.packages();
                assert(package_views(r@) =~= seq![descriptor.package()]);
                r
            },
        }
    }

    /// The files to rewrite so that every governed package has `version`.
    pub fn update_version(&self, version: &str) -> (r: Vec<ManifestEdit>)
        ensures
            edit_views(r@) == self.edits(version@),
    {
        match self {
            VersionedContent::Nothing => {
                let r: Vec<ManifestEdit> = Vec::new();
                assert(edit_views(r@) =~= Seq::empty());
                r
            },
            VersionedContent::Cargo(cargo) => cargo.update_version(version),
            VersionedContent::PackageJson(descriptor) => descriptor.update_version(version),
        }
    }
}

impl ReleaseSet {
    /// The tag range of the commits since `version` was released:
    /// `<name>_v<version>..HEAD`.
    pub open spec fn range_since(&self, version: Seq<char>) -> Seq<char> {
        self.name@ + "_v"@ + version + "..HEAD"@
    }

    /// The packages of the release set, file by file.
    pub fn versioned_packages(&self) -> (r: Vec<VersionedPackage>)
        ensures
            package_views(r@) == packages_of_files(
                self.versioned_files@,
                self.versioned_files@.len() as int,
            ),
    {
        let mut out: Vec<VersionedPackage> = Vec::new();
        let mut i: usize = 0;
        assert(package_views(out@) =~= packages_of_files(self.versioned_files@, 0));
        while i < self.versioned_files.len()
            invariant
                i <= self.versioned_files.len(),
                package_views(out@) == packages_of_files(self.versioned_files@, i as int),
            decreases self.versioned_files.len() - i,
        {
            let mut more = self.versioned_files[i].content.versioned_packages();
            assert(package_views(out@ + more@) =~= package_views(out@) + package_views(more@));
            out.append(&mut more);
            i += 1;
        }
        out
    }

    /// The files to rewrite so that every package of the release set has
    /// `version`, in the order in which to rewrite them.
    pub fn update_version(&self, version: &str) -> (r: Vec<ManifestEdit>)
        ensures
            edit_views(r@) == edits_of_files(
                self.versioned_files@,
                version@,
                self.versioned_files@.len() as int,
            ),
    {
        let mut out: Vec<ManifestEdit> = Vec::new();
        let mut i: usize = 0;
        assert(edit_views(out@) =~= edits_of_files(self.versioned_files@, version@, 0));
        while i < self.versioned_files.len()
            invariant
                i <= self.versioned_files.len(),
                edit_views(out@) == edits_of_files(self.versioned_files@, version@, i as int),
            decreases self.versioned_files.len() - i,
        {
            let mut more = self.versioned_files[i].content.update_version(version);
            assert(edit_views(out@ + more@) =~= edit_views(out@) + edit_views(more@));
            out.append(&mut more);
            i += 1;
        }
        out
    }

    /// The range of the commits made since `version` was released.
    pub fn commits_range(&self, version: &str) -> (r: String)
        ensures
            r@ == self.range_since(version@),
    {
        let mut r = self.name.clone();
        r.append("_v");
        r.append(version);
        r.append("..HEAD");
        r
    }
}

impl ReleaseConfig {
    /// The release set called `release_name`: the first so called.
    pub fn get_release(self, release_name: &str) -> (r: Result<ReleaseSet, ConfigError>)
        ensures
            match r {
                Ok(set) => release_position(self.release_sets@, release_name@, 0)
                    < self.release_sets@.len() && set == self.release_sets@[release_position(
                    self.release_sets@,
                    release_name@,
                    0,
                )],
                Err(e) => e == ConfigError::ReleaseNotFound && release_position(
                    self.release_sets@,
                    release_name@,
                    0,
                ) == self.release_sets@.len(),
            },
    {
        let mut sets = self.release_sets;
        let ghost all = sets@;
        let mut i: usize = 0;
        while i < sets.len()
            invariant
                sets@ == all,
                all == self.release_sets@,
                i <= sets.len(),
                release_position(all, release_name@, i as int) == release_position(
                    all,
                    release_name@,
                    0,
                ),
            decreases sets.len() - i,
        {
            if same_text(sets[i].name.as_str(), release_name) {
                return Ok(sets.remove(i));
            }
            i += 1;
        }
        Err(ConfigError::ReleaseNotFound)
    }
}

} // verus!
