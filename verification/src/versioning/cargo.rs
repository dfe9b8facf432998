//! Cargo manifests: which packages one governs, and how its version fields
//! are rewritten.
use crate::paths::{parent, parent_of};
use crate::config::{
    clone_packages, package_view, package_views, VersionedPackage, VersionedPackageView,
};
use crate::versioning::{Change, ManifestEdit, ManifestError, ManifestErrorView};
use vstd::prelude::*;

verus! {

/// A package of the workspace, as the workspace metadata reports it.
#[derive(Debug)]
pub struct WorkspaceMember {
    pub name: String,
    pub manifest_path: String,
    /// The manifest does not restrict where the package may be published.
    pub publishable: bool,
}

/// A Cargo manifest under release: a workspace root with its publishable
/// members, or a single package.
#[derive(Debug)]
pub struct CargoToml {
    path: String,
    is_workspace: bool,
    packages: Vec<VersionedPackage>,
}

/// Whether a text parses as a TOML document, by `toml_edit`.
pub uninterp spec fn toml_valid(text: Seq<char>) -> bool;

/// Whether a TOML document has the top-level key.
pub uninterp spec fn toml_has_key(text: Seq<char>, key: Seq<char>) -> bool;

/// Whether the table at the top-level key `outer` of a TOML document holds a
/// table at the key `inner`.
pub uninterp spec fn toml_has_table(text: Seq<char>, outer: Seq<char>, inner: Seq<char>) -> bool;

/// The string at the key `key` of the table `table` of a TOML document, where
/// there is one.
pub uninterp spec fn toml_string_at(text: Seq<char>, table: Seq<char>, key: Seq<char>) -> Option<
    Seq<char>,
>;

/// A TOML document with the value at the key `key` of the table `table`
/// replaced by the string `value`, as text; `None` where the document has no
/// such value.
pub uninterp spec fn toml_with_value(
    text: Seq<char>,
    table: Seq<char>,
    key: Seq<char>,
    value: Seq<char>,
) -> Option<Seq<char>>;

/// A TOML document with the value at the key `key` of the inline table
/// `<outer>.<inner>.<name>` replaced by the string `value`, as text; `None`
/// where the document has no such value.
pub uninterp spec fn toml_with_inline_value(
    text: Seq<char>,
    outer: Seq<char>,
    inner: Seq<char>,
    name: Seq<char>,
    key: Seq<char>,
    value: Seq<char>,
) -> Option<Seq<char>>;

/// Parses `text` as a `toml_edit::DocumentMut`. Trusted: whether that succeeds
/// depends on the text alone.
#[verifier::external_body]
fn toml_parses(text: &str) -> (r: bool)
    ensures
        r == toml_valid(text@),
{
    text.parse::<toml_edit::DocumentMut>().is_ok()
}

/// Parses `text` and asks `contains_key` for a top-level key. Trusted: `None`
/// exactly where the text does not parse; else the answer depends on the text
/// and the key alone.
#[verifier::external_body]
fn toml_contains_key(text: &str, key: &str) -> (r: Option<bool>)
    ensures
        r == if toml_valid(text@) {
            Some(toml_has_key(text@, key@))
        } else {
            None
        },
{
    text.parse::<toml_edit::DocumentMut>().ok().map(|doc| doc.contains_key(key))
}

/// Parses `text` and looks for the table `<outer>.<inner>` through `get`,
/// `as_table`, `get` and `as_table`. Trusted: `None` exactly where the text
/// does not parse; else the answer depends on the three texts alone.
#[verifier::external_body]
fn toml_contains_table(text: &str, outer: &str, inner: &str) -> (r: Option<bool>)
    ensures
        r == if toml_valid(text@) {
            Some(toml_has_table(text@, outer@, inner@))
        } else {
            None
        },
{
    let doc = text.parse::<toml_edit::DocumentMut>().ok()?;
    let table = doc.get(outer).and_then(|item| item.as_table());
    Some(table.and_then(|t| t.get(inner)).and_then(|item| item.as_table()).is_some())
}

/// Parses `text` and reads `<table>.<key>` through `get`, `as_table`, `get`
/// and `as_str`. Trusted: the result depends on the three texts alone; it is
/// `None` where the text does not parse.
#[verifier::external_body]
fn toml_read_string(text: &str, table: &str, key: &str) -> (r: Option<String>)
    ensures
        r matches Some(s) ==> toml_valid(text@) && toml_string_at(text@, table@, key@) == Some(s@),
        r is None ==> !toml_valid(text@) || toml_string_at(text@, table@, key@) is None,
{
    let doc = text.parse::<toml_edit::DocumentMut>().ok()?;
    let found = doc.get(table)?.as_table()?.get(key)?.as_str()?;
    Some(found.to_string())
}

/// Parses `text`, replaces the value found through `get_mut(table)`,
/// `as_table_mut`, `get_mut(key)` and `as_value_mut` by the string `value`,
/// and writes the document out. Trusted: the result depends on the four texts
/// alone; it is `None` where the text does not parse.
#[verifier::external_body]
fn toml_set_value(text: &str, table: &str, key: &str, value: &str) -> (r: Option<String>)
    ensures
        r matches Some(s) ==> toml_valid(text@) && toml_with_value(text@, table@, key@, value@)
            == Some(s@),
        r is None ==> !toml_valid(text@) || toml_with_value(text@, table@, key@, value@) is None,
{
    let mut doc = text.parse::<toml_edit::DocumentMut>().ok()?;
    let field = doc.get_mut(table)?.as_table_mut()?.get_mut(key)?.as_value_mut()?;
    *field = toml_edit::Value::String(toml_edit::Formatted::new(value.to_string()));
    Some(doc.to_string())
}

/// Parses `text`, replaces the value at `key` of the inline table found
/// through `get_mut(outer)`, `as_table_mut`, `get_mut(inner)`, `as_table_mut`,
/// `get_mut(name)` and `as_inline_table_mut` by the string `value`, and writes
/// the document out. Trusted: the result depends on the six texts alone; it
/// is `None` where the text does not parse.
#[verifier::external_body]
fn toml_set_inline_value(
    text: &str,
    outer: &str,
    inner: &str,
    name: &str,
    key: &str,
    value: &str,
) -> (r: Option<String>)
    ensures
        r matches Some(s) ==> toml_valid(text@) && toml_with_inline_value(
            text@,
            outer@,
            inner@,
            name@,
            key@,
            value@,
        ) == Some(s@),
        r is None ==> !toml_valid(text@) || toml_with_inline_value(
            text@,
            outer@,
            inner@,
            name@,
            key@,
            value@,
        ) is None,
{
    let mut doc = text.parse::<toml_edit::DocumentMut>().ok()?;
    let deps = doc.get_mut(outer)?.as_table_mut()?.get_mut(inner)?.as_table_mut()?;
    let field = deps.get_mut(name)?.as_inline_table_mut()?.get_mut(key)?;
    *field = toml_edit::Value::String(toml_edit::Formatted::new(value.to_string()));
    Some(doc.to_string())
}

/// The name of the package that a manifest declares: the string at
/// `package.name`.
pub open spec fn toml_package_name(text: Seq<char>) -> Option<Seq<char>> {
    toml_string_at(text, "package"@, "name"@)
}

/// A Cargo manifest as a value.
pub struct CargoView {
    pub path: Seq<char>,
    pub is_workspace: bool,
    pub packages: Seq<VersionedPackageView>,
}

/// The package that a workspace member becomes, where its manifest path has
/// a directory.
pub open spec fn member_package(m: WorkspaceMember) -> Option<VersionedPackageView> {
    match parent_of(m.manifest_path@) {
        Some(dir) => Some(VersionedPackageView { name: m.name@, dir, path: m.manifest_path@ }),
        None => None,
    }
}

/// The packages of the first `upto` members that may be published, in order;
/// `None` where the manifest path of one of them has no directory.
pub open spec fn member_packages(members: Seq<WorkspaceMember>, upto: int) -> Option<
    Seq<VersionedPackageView>,
>
    decreases upto,
{
    if upto <= 0 {
        Some(Seq::empty())
    } else {
        match member_packages(members, upto - 1) {
            None => None,
            Some(earlier) => if !members[upto - 1].publishable {
                Some(earlier)
            } else {
                match member_package(members[upto - 1]) {
                    Some(p) => Some(earlier.push(p)),
                    None => None,
                }
            },
        }
    }
}

/// The manifest at `path`, given whether it declares a workspace and the
/// package name it holds. A workspace root governs the members that may be
/// published; a single package governs itself and needs its name.
pub open spec fn manifest_of(
    path: Seq<char>,
    is_workspace: bool,
    name: Option<Seq<char>>,
    members: Seq<WorkspaceMember>,
) -> Result<CargoView, ManifestErrorView> {
    if parent_of(path) is None {
        Err(ManifestErrorView::NoFileName)
    } else if is_workspace {
        match member_packages(members, members.len() as int) {
            Some(packages) => Ok(CargoView { path, is_workspace, packages }),
            None => Err(ManifestErrorView::NoFileName),
        }
    } else {
        match name {
            Some(name) => Ok(
                CargoView {
                    path,
                    is_workspace,
                    packages: seq![
                        VersionedPackageView { name, dir: parent_of(path).unwrap(), path },
                    ],
                },
            ),
            None => Err(ManifestErrorView::MissingPackageName),
        }
    }
}

/// The manifest at `path` with the text `text`: it declares a workspace
/// where it has the top-level key `workspace`.
pub open spec fn manifest_read(
    path: Seq<char>,
    text: Seq<char>,
    members: Seq<WorkspaceMember>,
) -> Result<CargoView, ManifestErrorView> {
    if !toml_valid(text) {
        Err(ManifestErrorView::Parse)
    } else {
        manifest_of(path, toml_has_key(text, "workspace"@), toml_package_name(text), members)
    }
}

/// The text of a workspace manifest after the `version` of each of the first
/// `upto` names under `workspace.dependencies` is set. The first name for
/// which the table or the entry is missing fails them all.
pub open spec fn with_workspace_dependencies(
    text: Seq<char>,
    names: Seq<Seq<char>>,
    version: Seq<char>,
    upto: int,
) -> Result<Seq<char>, ManifestErrorView>
    decreases upto,
{
    if upto <= 0 {
        if toml_valid(text) {
            Ok(text)
        } else {
            Err(ManifestErrorView::Parse)
        }
    } else {
        match with_workspace_dependencies(text, names, version, upto - 1) {
            Err(e) => Err(e),
            Ok(earlier) => with_workspace_dependency(earlier, names[upto - 1], version),
        }
    }
}

/// The text of a workspace manifest after the `version` of the inline table
/// `workspace.dependencies.<name>` is set.
pub open spec fn with_workspace_dependency(
    text: Seq<char>,
    name: Seq<char>,
    version: Seq<char>,
) -> Result<Seq<char>, ManifestErrorView> {
    if !toml_valid(text) {
        Err(ManifestErrorView::Parse)
    } else if !toml_has_table(text, "workspace"@, "dependencies"@) {
        Err(ManifestErrorView::MissingWorkspaceDependencies)
    } else {
        match toml_with_inline_value(
            text,
            "workspace"@,
            "dependencies"@,
            name,
            "version"@,
            version,
        ) {
            Some(next) => Ok(next),
            None => Err(ManifestErrorView::MissingWorkspaceDependency { name }),
        }
    }
}

/// The text of a package manifest after `package.version` is set.
pub open spec fn with_package_version(text: Seq<char>, version: Seq<char>) -> Result<
    Seq<char>,
    ManifestErrorView,
> {
    if !toml_valid(text) {
        Err(ManifestErrorView::Parse)
    } else {
        match toml_with_value(text, "package"@, "version"@, version) {
            Some(next) => Ok(next),
            None => Err(ManifestErrorView::MissingPackageVersion),
        }
    }
}

/// Whether the manifest text declares a workspace.
pub fn is_workspace_manifest(text: &str) -> (r: Result<bool, ManifestError>)
    ensures
        match r {
            Ok(b) => toml_valid(text@) && b == toml_has_key(text@, "workspace"@),
            Err(e) => !toml_valid(text@) && e@ == ManifestErrorView::Parse,
        },
{
    match toml_contains_key(text, "workspace") {
        Some(b) => Ok(b),
        None => Err(ManifestError::Parse),
    }
}

/// Sets `package.version` in the text of a package manifest.
pub fn set_package_version(text: &str, version: &str) -> (r: Result<String, ManifestError>)
    ensures
        match with_package_version(text@, version@) {
            Ok(next) => r matches Ok(s) && s@ == next,
            Err(e) => r matches Err(f) && f@ == e,
        },
{
    if !toml_parses(text) {
        return Err(ManifestError::Parse);
    }
    match toml_set_value(text, "package", "version", version) {
        Some(next) => Ok(next),
        None => Err(ManifestError::MissingPackageVersion),
    }
}

/// Sets, in the text of a workspace manifest, the `version` of the package
/// `name` under `workspace.dependencies`. Fails where the manifest has no
/// such table, and names the package where the table has no entry for it.
pub fn set_workspace_dependency_version(text: &str, name: &str, version: &str) -> (r: Result<
    String,
    ManifestError,
>)
    ensures
        match with_workspace_dependency(text@, name@, version@) {
            Ok(next) => r matches Ok(s) && s@ == next,
            Err(e) => r matches Err(f) && f@ == e,
        },
{
    match toml_contains_table(text, "workspace", "dependencies") {
        None => {
            return Err(ManifestError::Parse);
        },
        Some(false) => {
            return Err(ManifestError::MissingWorkspaceDependencies);
        },
        Some(true) => {},
    }
    match toml_set_inline_value(text, "workspace", "dependencies", name, "version", version) {
        Some(next) => Ok(next),
        None => Err(ManifestError::MissingWorkspaceDependency { name: name.to_owned() }),
    }
}

/// Sets, in the text of a workspace manifest, the `version` of each named
/// package under `workspace.dependencies`. Fails at the first name that has
/// no such entry, and names it.
pub fn set_workspace_dependency_versions(text: &str, names: &Vec<String>, version: &str) -> (r:
    Result<String, ManifestError>)
    ensures
        match with_workspace_dependencies(
            text@,
            names@.map_values(|n: String| n@),
            version@,
            names@.len() as int,
        ) {
            Ok(next) => r matches Ok(s) && s@ == next,
            Err(e) => r matches Err(f) && f@ == e,
        },
{
    let ghost views = names@.map_values(|n: String| n@);
    if !toml_parses(text) {
        proof {
            lemma_failure_stays(text@, views, version@, 0, names@.len() as int);
        }
        return Err(ManifestError::Parse);
    }
    let mut current = text.to_owned();
    let mut i: usize = 0;
    while i < names.len()
        invariant
            views == names@.map_values(|n: String| n@),
            i <= names.len(),
            with_workspace_dependencies(text@, views, version@, i as int) == Ok::<
                Seq<char>,
                ManifestErrorView,
            >(current@),
        decreases names.len() - i,
    {
        assert(views[i as int] == names@[i as int]@);
        match set_workspace_dependency_version(current.as_str(), names[i].as_str(), version) {
            Ok(next) => {
                current = next;
            },
            Err(e) => {
                proof {
                    lemma_failure_stays(text@, views, version@, i + 1, names@.len() as int);
                }
                return Err(e);
            },
        }
        i += 1;
    }
    Ok(current)
}

/// Where setting the versions fails for want of an entry, the error names
/// the first package without one: every name before it was set.
pub proof fn lemma_first_missing_dependency_is_named(
    text: Seq<char>,
    names: Seq<Seq<char>>,
    version: Seq<char>,
    upto: int,
)
    requires
        with_workspace_dependencies(text, names, version, upto) is Err,
        with_workspace_dependencies(text, names, version, upto)->Err_0 is MissingWorkspaceDependency,
    ensures
        exists|i: int|
            {
                &&& 0 <= i < upto
                &&& #[trigger] names[i] == with_workspace_dependencies(
                    text,
                    names,
                    version,
                    upto,
                )->Err_0->name
                &&& with_workspace_dependencies(text, names, version, i) is Ok
            },
    decreases upto,
{
    if upto > 0 {
        if with_workspace_dependencies(text, names, version, upto - 1) is Err {
            lemma_first_missing_dependency_is_named(text, names, version, upto - 1);
        } else {
            assert(names[upto - 1] == with_workspace_dependencies(
                text,
                names,
                version,
                upto,
            )->Err_0->name);
        }
    }
}

/// Once setting the first `at` names has failed, setting more fails the same
/// way.
proof fn lemma_failure_stays(
    text: Seq<char>,
    names: Seq<Seq<char>>,
    version: Seq<char>,
    at: int,
    upto: int,
)
    requires
        0 <= at <= upto,
        with_workspace_dependencies(text, names, version, at) is Err,
    ensures
        with_workspace_dependencies(text, names, version, upto) == with_workspace_dependencies(
            text,
            names,
            version,
            at,
        ),
    decreases upto - at,
{
    if at < upto {
        lemma_failure_stays(text, names, version, at, upto - 1);
    }
}

impl View for CargoToml {
    type V = CargoView;

    open spec fn view(&self) -> CargoView {
        CargoView {
            path: self.path(),
            is_workspace: self.is_workspace(),
            packages: package_views(self.governed()),
        }
    }
}

impl CargoToml {
    pub closed spec fn path(&self) -> Seq<char> {
        self.path@
    }

    pub closed spec fn is_workspace(&self) -> bool {
        self.is_workspace
    }

    pub closed spec fn governed(&self) -> Seq<VersionedPackage> {
        self.packages@
    }

    /// The manifest at `path`, given whether it declares a workspace and the
    /// package name it holds. For a workspace root `members` are the packages
    /// of the workspace, of which those that may be published are governed; a
    /// single package governs itself.
    pub fn from_parts(
        path: &str,
        is_workspace: bool,
        name: Option<String>,
        members: &Vec<WorkspaceMember>,
    ) -> (r: Result<CargoToml, ManifestError>)
        ensures
            match manifest_of(
                path@,
                is_workspace,
                match name {
                    Some(n) => Some(n@),
                    None => None,
                },
                members@,
            ) {
                Ok(manifest) => r matches Ok(found) && found@ == manifest,
                Err(e) => r matches Err(f) && f@ == e,
            },
    {
        let dir = match parent(path) {
            Some(d) => d,
            None => {
                return Err(ManifestError::NoFileName);
            },
        };
        let mut packages: Vec<VersionedPackage> = Vec::new();
        if is_workspace {
            let mut i: usize = 0;
            assert(package_views(packages@) =~= Seq::empty());
            while i < members.len()
                invariant
                    i <= members.len(),
                    is_workspace,
                    parent_of(path@) is Some,
                    member_packages(members@, i as int) == Some(package_views(packages@)),
                decreases members.len() - i,
            {
                let m = &members[i];
                if m.publishable {
                    match parent(m.manifest_path.as_str()) {
                        Some(member_dir) => {
                            let p = VersionedPackage {
                                name: m.name.clone(),
                                dir: member_dir,
                                path: m.manifest_path.clone(),
                            };
                            assert(package_views(packages@.push(p)) =~= package_views(
                                packages@,
                            ).push(package_view(p)));
                            packages.push(p);
                        },
                        None => {
                            proof {
                                assert(member_packages(members@, i + 1) is None);
                                lemma_members_fail(members@, i + 1, members@.len() as int);
                            }
                            return Err(ManifestError::NoFileName);
                        },
                    }
                }
                i += 1;
            }
        } else {
            match name {
                Some(name) => {
                    let p = VersionedPackage { name, dir, path: path.to_owned() };
                    packages.push(p);
                    assert(package_views(packages@) =~= seq![package_view(p)]);
                },
                None => {
                    return Err(ManifestError::MissingPackageName);
                },
            }
        }
        Ok(CargoToml { path: path.to_owned(), is_workspace, packages })
    }

    /// The manifest at `path` with the text `text`, which declares a
    /// workspace where it has the top-level key `workspace`. `members` are
    /// the packages of the workspace.
    pub fn new(path: &str, text: &str, members: &Vec<WorkspaceMember>) -> (r: Result<
        CargoToml,
        ManifestError,
    >)
        ensures
            match manifest_read(path@, text@, members@) {
                Ok(manifest) => r matches Ok(found) && found@ == manifest,
                Err(e) => r matches Err(f) && f@ == e,
            },
    {
        let is_workspace = match toml_contains_key(text, "workspace") {
            Some(b) => b,
            None => {
                return Err(ManifestError::Parse);
            },
        };
        let name = toml_read_string(text, "package", "name");
        CargoToml::from_parts(path, is_workspace, name, members)
    }

    /// The packages this manifest governs.
    pub fn packages(&self) -> (r: Vec<VersionedPackage>)
        ensures
            r@ == self.governed(),
    {
        clone_packages(&self.packages)
    }

    /// The files to rewrite so that every governed package has `version`, in
    /// the order in which to rewrite them: for a workspace first its own
    /// manifest, where the dependency entry of each governed package is set;
    /// then the manifest of each governed package, where `package.version`
    /// is set.
    pub fn update_version(&self, version: &str) -> (r: Vec<ManifestEdit>)
        ensures
            edit_views(r@) == manifest_edits(
                self.path(),
                self.is_workspace(),
                package_views(self.governed()),
                version@,
            ),
    {
        let ghost governed = package_views(self.packages@);
        let mut edits: Vec<ManifestEdit> = Vec::new();
        if self.is_workspace {
            let mut names: Vec<String> = Vec::new();
            let mut i: usize = 0;
            while i < self.packages.len()
                invariant
                    i <= self.packages.len(),
                    names@.len() == i,
                    forall|j: int| 0 <= j < i ==> names@[j]@ == self.packages@[j].name@,
                decreases self.packages.len() - i,
            {
                names.push(self.packages[i].name.clone());
                i += 1;
            }
            let edit = ManifestEdit {
                path: self.path.clone(),
                change: Change::WorkspaceDependencies { names },
                version: version.to_owned(),
            };
            assert(edit_view(edit) == workspace_edit(self.path@, governed, version@)) by {
                assert(names@.map_values(|n: String| n@) =~= governed.map_values(
                    |p: VersionedPackageView| p.name,
                ));
            }
            edits.push(edit);
        }
        let ghost head = edit_views(edits@);
        let mut k: usize = 0;
        assert(edit_views(edits@) =~= head + package_edits(governed, version@, 0));
        while k < self.packages.len()
            invariant
                k <= self.packages.len(),
                governed == package_views(self.packages@),
                edit_views(edits@) == head + package_edits(governed, version@, k as int),
            decreases self.packages.len() - k,
        {
            let edit = ManifestEdit {
                path: self.packages[k].path.clone(),
                change: Change::PackageVersion,
                version: version.to_owned(),
            };
            assert(edit_views(edits@.push(edit)) =~= edit_views(edits@).push(edit_view(edit)));
            assert(governed[k as int] == package_view(self.packages@[k as int]));
            edits.push(edit);
            assert(edit_views(edits@) =~= head + package_edits(governed, version@, k + 1));
            k += 1;
        }
        edits
    }
}

proof fn lemma_members_fail(members: Seq<WorkspaceMember>, at: int, upto: int)
    requires
        0 <= at <= upto,
        member_packages(members, at) is None,
    ensures
        member_packages(members, upto) is None,
    decreases upto - at,
{
    if at < upto {
        lemma_members_fail(members, at, upto - 1);
    }
}

pub enum ChangeView {
    WorkspaceDependencies { names: Seq<Seq<char>> },
    PackageVersion,
    JsonVersion,
}

pub struct ManifestEditView {
    pub path: Seq<char>,
    pub change: ChangeView,
    pub version: Seq<char>,
}

pub open spec fn edit_view(e: ManifestEdit) -> ManifestEditView {
    ManifestEditView {
        path: e.path@,
        change: match e.change {
            Change::WorkspaceDependencies { names } => ChangeView::WorkspaceDependencies {
                names: names@.map_values(|n: String| n@),
            },
            Change::PackageVersion => ChangeView::PackageVersion,
            Change::JsonVersion => ChangeView::JsonVersion,
        },
        version: e.version@,
    }
}

pub open spec fn edit_views(edits: Seq<ManifestEdit>) -> Seq<ManifestEditView> {
    edits.map_values(|e: ManifestEdit| edit_view(e))
}

pub open spec fn workspace_edit(
    path: Seq<char>,
    packages: Seq<VersionedPackageView>,
    version: Seq<char>,
) -> ManifestEditView {
    ManifestEditView {
        path,
        change: ChangeView::WorkspaceDependencies {
            names: packages.map_values(|p: VersionedPackageView| p.name),
        },
        version,
    }
}

/// One edit of `package.version` for each of the first `upto` packages.
pub open spec fn package_edits(
    packages: Seq<VersionedPackageView>,
    version: Seq<char>,
    upto: int,
) -> Seq<ManifestEditView>
    decreases upto,
{
    if upto <= 0 {
        Seq::empty()
    } else {
        package_edits(packages, version, upto - 1).push(
            ManifestEditView {
                path: packages[upto - 1].path,
                change: ChangeView::PackageVersion,
                version,
            },
        )
    }
}

/// The edits that give every governed package of a Cargo manifest `version`.
pub open spec fn manifest_edits(
    path: Seq<char>,
    is_workspace: bool,
    packages: Seq<VersionedPackageView>,
    version: Seq<char>,
) -> Seq<ManifestEditView> {
    (if is_workspace {
        seq![workspace_edit(path, packages, version)]
    } else {
        Seq::empty()
    }) + package_edits(packages, version, packages.len() as int)
}

} // verus!
