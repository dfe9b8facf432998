//! `package.json` descriptors: the package one names, and how its version
//! is rewritten.
use crate::paths::{parent, parent_of};
use crate::versioning::cargo::{edit_views, ChangeView, ManifestEditView};
use crate::config::{package_view, VersionedPackage, VersionedPackageView};
use crate::versioning::{Change, ManifestEdit, ManifestError, ManifestErrorView};
use vstd::prelude::*;

verus! {

/// A `package.json` under release.
#[derive(Debug)]
pub struct PackageJson {
    path: String,
    dir: String,
    name: String,
}

/// Whether a text parses as a JSON object, by `serde_json`.
pub uninterp spec fn json_object_valid(text: Seq<char>) -> bool;

/// The string under the key `key` of a JSON object, where there is one.
pub uninterp spec fn json_string_at(text: Seq<char>, key: Seq<char>) -> Option<Seq<char>>;

/// A JSON object with the key `key` set to the string `value`, written out by
/// `serde_json::to_string_pretty`.
pub uninterp spec fn json_with_string(text: Seq<char>, key: Seq<char>, value: Seq<char>) -> Option<
    Seq<char>,
>;

/// Parses `text` with `serde_json::from_str` as a map from keys to values.
/// Trusted: whether that succeeds depends on the text alone.
#[verifier::external_body]
fn json_parses(text: &str) -> (r: bool)
    ensures
        r == json_object_valid(text@),
{
    serde_json::from_str::<serde_json::Map<String, serde_json::Value>>(text).is_ok()
}

/// Parses `text` as a JSON object and reads the string under `key` through
/// `get` and `as_str`. Trusted: the result depends on the two texts alone; it
/// is `None` where the text does not parse.
#[verifier::external_body]
fn json_read_string(text: &str, key: &str) -> (r: Option<String>)
    ensures
        r matches Some(s) ==> json_object_valid(text@) && json_string_at(text@, key@) == Some(s@),
        r is None ==> !json_object_valid(text@) || json_string_at(text@, key@) is None,
{
    let raw = serde_json::from_str::<serde_json::Map<String, serde_json::Value>>(text).ok()?;
    Some(raw.get(key)?.as_str()?.to_string())
}

/// Parses `text` as a JSON object, inserts the string `value` under the key
/// `key`, and writes the object out with `serde_json::to_string_pretty`.
/// Trusted: the result depends on the three texts alone; it is `None` where
/// the text does not parse or the object cannot be written.
#[verifier::external_body]
fn json_set_string(text: &str, key: &str, value: &str) -> (r: Option<String>)
    ensures
        r matches Some(s) ==> json_object_valid(text@) && json_with_string(text@, key@, value@)
            == Some(s@),
        r is None ==> !json_object_valid(text@) || json_with_string(text@, key@, value@) is None,
{
    let mut raw = serde_json::from_str::<serde_json::Map<String, serde_json::Value>>(text).ok()?;
    raw.insert(key.to_string(), serde_json::Value::String(value.to_string()));
    serde_json::to_string_pretty(&raw).ok()
}

/// The package that the descriptor at `path` governs, given the name it
/// holds.
pub open spec fn descriptor_of(path: Seq<char>, name: Option<Seq<char>>) -> Result<
    VersionedPackageView,
    ManifestErrorView,
> {
    if parent_of(path) is None {
        Err(ManifestErrorView::NoFileName)
    } else {
        match name {
            Some(name) => Ok(VersionedPackageView { name, dir: parent_of(path).unwrap(), path }),
            None => Err(ManifestErrorView::MissingPackageName),
        }
    }
}

/// The package that the descriptor at `path` with the text `text` names: the
/// string under its key `name`.
pub open spec fn described_package(path: Seq<char>, text: Seq<char>) -> Result<
    VersionedPackageView,
    ManifestErrorView,
> {
    if !json_object_valid(text) {
        Err(ManifestErrorView::Parse)
    } else {
        descriptor_of(path, json_string_at(text, "name"@))
    }
}

/// The text of a descriptor after its `version` is set.
pub open spec fn with_json_version(text: Seq<char>, version: Seq<char>) -> Result<
    Seq<char>,
    ManifestErrorView,
> {
    if !json_object_valid(text) {
        Err(ManifestErrorView::Parse)
    } else {
        match json_with_string(text, "version"@, version) {
            Some(next) => Ok(next),
            None => Err(ManifestErrorView::Parse),
        }
    }
}

/// Sets the top-level `version` in the text of a descriptor.
pub fn set_json_version(text: &str, version: &str) -> (r: Result<String, ManifestError>)
    ensures
        match with_json_version(text@, version@) {
            Ok(next) => r matches Ok(s) && s@ == next,
            Err(e) => r matches Err(f) && f@ == e,
        },
{
    match json_set_string(text, "version", version) {
        Some(next) => Ok(next),
        None => Err(ManifestError::Parse),
    }
}

impl PackageJson {
    pub closed spec fn package(&self) -> VersionedPackageView {
        VersionedPackageView { name: self.name@, dir: self.dir@, path: self.path@ }
    }

    /// The descriptor at `path`, given the package name it holds. Fails
    /// where the path has no directory or there is no name.
    pub fn from_parts(path: &str, name: Option<String>) -> (r: Result<PackageJson, ManifestError>)
        ensures
            match descriptor_of(
                path@,
                match name {
                    Some(n) => Some(n@),
                    None => None,
                },
            ) {
                Ok(package) => r matches Ok(descriptor) && descriptor.package() == package,
                Err(e) => r matches Err(f) && f@ == e,
            },
    {
        let dir = match parent(path) {
            Some(d) => d,
            None => {
                return Err(ManifestError::NoFileName);
            },
        };
        match name {
            Some(name) => Ok(PackageJson { path: path.to_owned(), dir, name }),
            None => Err(ManifestError::MissingPackageName),
        }
    }

    /// The descriptor at `path` with the text `text`. Fails where the text
    /// is no JSON object or names no package.
    pub fn new(path: &str, text: &str) -> (r: Result<PackageJson, ManifestError>)
        ensures
            match described_package(path@, text@) {
                Ok(package) => r matches Ok(descriptor) && descriptor.package() == package,
                Err(e) => r matches Err(f) && f@ == e,
            },
    {
        if !json_parses(text) {
            return Err(ManifestError::Parse);
        }
        PackageJson::from_parts(path, json_read_string(text, "name"))
    }

    /// The one package this descriptor governs.
    pub fn packages(&self) -> (r: Vec<VersionedPackage>)
        ensures
            r@.len() == 1,
            package_view(r@[0]) == self.package(),
    {
        let mut out: Vec<VersionedPackage> = Vec::new();
        out.push(
            VersionedPackage {
                name: self.name.clone(),
                dir: self.dir.clone(),
                path: self.path.clone(),
            },
        );
        out
    }

    /// The one file to rewrite so that the package has `version`: the
    /// descriptor itself, where the top-level `version` is set.
    pub fn update_version(&self, version: &str) -> (r: Vec<ManifestEdit>)
        ensures
            edit_views(r@) == seq![
                ManifestEditView {
                    path: self.package().path,
                    change: ChangeView::JsonVersion,
                    version: version@,
                },
            ],
    {
        let mut edits: Vec<ManifestEdit> = Vec::new();
        edits.push(
            ManifestEdit {
                path: self.path.clone(),
                change: Change::JsonVersion,
                version: version.to_owned(),
            },
        );
        assert(edit_views(edits@) =~= seq![
            ManifestEditView {
                path: self.package().path,
                change: ChangeView::JsonVersion,
                version: version@,
            },
        ]);
        edits
    }
}

} // verus!
