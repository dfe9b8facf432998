//! A release update: the tags of a release set, the next version, and what
//! to do for the changelogs and the manifests.
use crate::changelog::Release;
use crate::commit::{messages_of, Commit};
use crate::config::{
    edits_of_files, package_view, package_views, packages_of_files, ReleaseSet, VersionedPackage,
    VersionedPackageView,
};
use crate::paths::{join, joined};
use crate::scope::{
    found_commits, glob_is_valid, glob_valid, include_pattern, include_pattern_text, scan, scoped,
    texts, ScopeError,
};
use crate::text::chars_of;
use crate::version::{
    next_version, next_version_text, scope_views, semver_parse, BumpError, SemVer,
};
use crate::versioning::cargo::{edit_views, ManifestEditView};
use crate::versioning::ManifestEdit;
use vstd::prelude::*;
use vstd::string::*;

verus! {

/// Why the tag history of a release set cannot be used.
#[derive(Clone, Copy, Debug, PartialEq, Eq, Structural)]
pub enum HistoryError {
    /// No tag belongs to the release set.
    NoTags,
    /// What follows the version prefix of a tag is no semantic version.
    UnparsableVersion,
    /// The name of the release set makes no valid tag pattern.
    InvalidTagPattern,
}

/// A released version and the commit that was tagged with it.
#[derive(Debug)]
pub struct GitTag {
    pub version: String,
    pub sha: String,
}

pub struct GitTagView {
    pub version: Seq<char>,
    pub sha: Seq<char>,
}

impl View for GitTag {
    type V = GitTagView;

    open spec fn view(&self) -> GitTagView {
        GitTagView { version: self.version@, sha: self.sha@ }
    }
}

/// Where the last `_v` starts in the first `upto` characters of `tag`, or -1
/// where they hold none.
pub open spec fn last_version_mark(tag: Seq<char>, upto: int) -> int
    decreases upto,
{
    if upto <= 1 {
        -1
    } else if tag[upto - 2] == '_' && tag[upto - 1] == 'v' {
        upto - 2
    } else {
        last_version_mark(tag, upto - 1)
    }
}

/// The version that a tag name carries. Tags are named
/// `<release-set-name>_v<version>`, and a version holds no `_`: the version
/// is what follows the last `_v` of the name, or the whole name where it has
/// none.
pub open spec fn tag_version(tag: Seq<char>) -> Seq<char> {
    let mark = last_version_mark(tag, tag.len() as int);
    if mark < 0 {
        tag
    } else {
        tag.subrange(mark + 2, tag.len() as int)
    }
}

/// The name of the tag that marks `version` of the release set `release`.
pub open spec fn tag_name(release: Seq<char>, version: Seq<char>) -> Seq<char> {
    release + "_v"@ + version
}

/// A tag named by the convention carries its version, whatever the release
/// set is called: for every version that holds no `_`, the version of the tag
/// `<release>_v<version>` is `version`.
pub proof fn lemma_tag_carries_version(release: Seq<char>, version: Seq<char>)
    requires
        forall|i: int| 0 <= i < version.len() ==> version[i] != '_',
    ensures
        tag_version(tag_name(release, version)) == version,
{
    reveal_strlit("_v");
    let tag = tag_name(release, version);
    let mark = release.len() as int;
    assert(tag.len() == mark + 2 + version.len());
    assert(tag[mark] == '_' && tag[mark + 1] == 'v');
    assert forall|i: int| mark + 2 <= i < tag.len() implies tag[i] == version[i - mark - 2] by {}
    lemma_mark_stays(tag, mark, tag.len() as int);
    assert(tag.subrange(mark + 2, tag.len() as int) =~= version);
}

/// Where a `_v` at `mark` is followed by no `_`, it is the last one.
proof fn lemma_mark_stays(tag: Seq<char>, mark: int, upto: int)
    requires
        0 <= mark,
        mark + 2 <= upto <= tag.len(),
        tag[mark] == '_',
        tag[mark + 1] == 'v',
        forall|i: int| mark + 2 <= i < tag.len() ==> tag[i] != '_',
    ensures
        last_version_mark(tag, upto) == mark,
    decreases upto,
{
    if upto > mark + 2 {
        lemma_mark_stays(tag, mark, upto - 1);
    }
}

/// The pattern that the tags of a release set match: `^<name>_v[0-9]*`.
pub open spec fn tag_pattern_text(release: Seq<char>) -> Seq<char> {
    "^"@ + release + "_v[0-9]*"@
}

/// Whether `regex::Regex::new` accepts a pattern.
pub uninterp spec fn regex_valid(pattern: Seq<char>) -> bool;

/// Compiles `pattern` with `regex::Regex::new` and says whether that
/// succeeded. Trusted: the answer depends on the pattern's text alone.
#[verifier::external_body]
fn regex_compiles(pattern: &str) -> (r: bool)
    ensures
        r == regex_valid(pattern@),
{
    regex::Regex::new(pattern).is_ok()
}

/// The tags of the first `upto` raw pairs of commit and tag name; the first
/// tag whose version does not parse fails them all.
pub open spec fn parsed_tags(raw: Seq<(String, String)>, upto: int) -> Result<
    Seq<GitTagView>,
    HistoryError,
>
    decreases upto,
{
    if upto <= 0 {
        Ok(Seq::empty())
    } else {
        match parsed_tags(raw, upto - 1) {
            Err(e) => Err(e),
            Ok(earlier) => if semver_parse(tag_version(raw[upto - 1].1@)) is Some {
                Ok(
                    earlier.push(
                        GitTagView { version: tag_version(raw[upto - 1].1@), sha: raw[upto - 1].0@ },
                    ),
                )
            } else {
                Err(HistoryError::UnparsableVersion)
            },
        }
    }
}

/// What `Update::new` makes of the raw tags: the tags in history order, of
/// which there must be one.
pub open spec fn tag_history(raw: Seq<(String, String)>) -> Result<Seq<GitTagView>, HistoryError> {
    match parsed_tags(raw, raw.len() as int) {
        Err(e) => Err(e),
        Ok(tags) => if tags.len() == 0 {
            Err(HistoryError::NoTags)
        } else {
            Ok(tags)
        },
    }
}

/// A version as tags carry it: a semantic version, which holds no `_`.
pub open spec fn taggable(version: Seq<char>) -> bool {
    semver_parse(version) is Some && forall|j: int| 0 <= j < version.len() ==> version[j] != '_'
}

/// The tags of a release set are read as they were named: where the tag at
/// each place is `<release>_v<version>` for a version of that place, the
/// first `upto` tags parse, each to its version and its commit.
pub proof fn lemma_named_tags_parse(
    raw: Seq<(String, String)>,
    release: Seq<char>,
    versions: Seq<Seq<char>>,
    upto: int,
)
    requires
        0 <= upto <= raw.len() == versions.len(),
        forall|i: int| 0 <= i < raw.len() ==> (#[trigger] raw[i]).1@ == tag_name(release, versions[i]),
        forall|i: int| 0 <= i < versions.len() ==> taggable(#[trigger] versions[i]),
    ensures
        parsed_tags(raw, upto) matches Ok(tags) && tags.len() == upto && forall|i: int|
            0 <= i < upto ==> #[trigger] tags[i] == (GitTagView {
                version: versions[i],
                sha: raw[i].0@,
            }),
    decreases upto,
{
    if upto > 0 {
        lemma_named_tags_parse(raw, release, versions, upto - 1);
        assert(raw[upto - 1].1@ == tag_name(release, versions[upto - 1]));
        assert(taggable(versions[upto - 1]));
        lemma_tag_carries_version(release, versions[upto - 1]);
    }
}

/// A release set with at least one tag, each named `<release>_v<version>`,
/// has a history, and its current version is the version of the last tag.
pub proof fn lemma_named_tags_give_history(
    raw: Seq<(String, String)>,
    release: Seq<char>,
    versions: Seq<Seq<char>>,
)
    requires
        0 < raw.len() == versions.len(),
        forall|i: int| 0 <= i < raw.len() ==> (#[trigger] raw[i]).1@ == tag_name(release, versions[i]),
        forall|i: int| 0 <= i < versions.len() ==> taggable(#[trigger] versions[i]),
    ensures
        tag_history(raw) matches Ok(tags) && tags.len() == raw.len() && tags.last().version
            == versions.last(),
{
    lemma_named_tags_parse(raw, release, versions, raw.len() as int);
}

/// One step of regenerating a changelog: the release that a tag closed.
#[derive(Debug)]
pub struct RegenerationStep {
    /// The commits of the release: `<previous sha>..<sha>`.
    pub range: String,
    /// The version of the release.
    pub version: String,
    /// The tagged commit; its time is the time of the release.
    pub sha: String,
}

pub struct StepView {
    pub range: Seq<char>,
    pub version: Seq<char>,
    pub sha: Seq<char>,
}

impl View for RegenerationStep {
    type V = StepView;

    open spec fn view(&self) -> StepView {
        StepView { range: self.range@, version: self.version@, sha: self.sha@ }
    }
}

pub open spec fn step_views(steps: Seq<RegenerationStep>) -> Seq<StepView> {
    steps.map_values(|s: RegenerationStep| s@)
}

pub open spec fn tag_views(tags: Seq<GitTag>) -> Seq<GitTagView> {
    tags.map_values(|t: GitTag| t@)
}

/// The release between two tags that follow each other.
pub open spec fn step_between(from: GitTagView, to: GitTagView) -> StepView {
    StepView { range: from.sha + ".."@ + to.sha, version: to.version, sha: to.sha }
}

/// One step for each of the first `upto` pairs of tags that follow each other.
pub open spec fn regeneration_steps(tags: Seq<GitTagView>, upto: int) -> Seq<StepView>
    decreases upto,
{
    if upto <= 0 {
        Seq::empty()
    } else {
        regeneration_steps(tags, upto - 1).push(step_between(tags[upto - 1], tags[upto]))
    }
}

/// The number of pairs of tags that follow each other.
pub open spec fn pair_count(tags: Seq<GitTagView>) -> int {
    if tags.len() == 0 {
        0
    } else {
        tags.len() - 1
    }
}

/// The changelog of one package: which commits go into it and where it is
/// written.
#[derive(Debug)]
pub struct ChangelogJob {
    pub package: VersionedPackage,
    /// The include pattern of the package's commits.
    pub pattern: String,
    /// The file that holds the changelog.
    pub changelog_path: String,
}

pub struct JobView {
    pub package: VersionedPackageView,
    pub pattern: Seq<char>,
    pub changelog_path: Seq<char>,
}

pub open spec fn job_view(j: ChangelogJob) -> JobView {
    JobView {
        package: package_view(j.package),
        pattern: j.pattern@,
        changelog_path: j.changelog_path@,
    }
}

pub open spec fn job_views(jobs: Seq<ChangelogJob>) -> Seq<JobView> {
    jobs.map_values(|j: ChangelogJob| job_view(j))
}

/// The include pattern of a package, where its directory lies under the root
/// and the pattern is a valid glob.
pub open spec fn package_pattern(root: Seq<char>, dir: Seq<char>) -> Result<Seq<char>, ScopeError> {
    match include_pattern_text(root, dir) {
        Err(e) => Err(e),
        Ok(pattern) => if glob_valid(pattern) {
            Ok(pattern)
        } else {
            Err(ScopeError::InvalidPattern)
        },
    }
}

/// The changelog jobs of the first `upto` packages; the first package
/// without a pattern fails them all.
pub open spec fn changelog_jobs(root: Seq<char>, packages: Seq<VersionedPackageView>, upto: int) -> Result<
    Seq<JobView>,
    ScopeError,
>
    decreases upto,
{
    if upto <= 0 {
        Ok(Seq::empty())
    } else {
        match changelog_jobs(root, packages, upto - 1) {
            Err(e) => Err(e),
            Ok(earlier) => match package_pattern(root, packages[upto - 1].dir) {
                Err(e) => Err(e),
                Ok(pattern) => Ok(
                    earlier.push(
                        JobView {
                            package: packages[upto - 1],
                            pattern,
                            changelog_path: joined(packages[upto - 1].dir, "CHANGELOG.md"@),
                        },
                    ),
                ),
            },
        }
    }
}

pub open spec fn job_patterns(jobs: Seq<JobView>) -> Seq<Seq<char>> {
    jobs.map_values(|j: JobView| j.pattern)
}

/// Everything a release changes: the version to release, the changelog of
/// each package, and the files that carry the version.
#[derive(Debug)]
pub struct ReleasePlan {
    pub next_version: String,
    pub changelogs: Vec<ChangelogJob>,
    pub edits: Vec<ManifestEdit>,
}

/// Why a release could not be planned.
#[derive(Clone, Copy, Debug, PartialEq, Eq, Structural)]
pub enum UpdateError {
    /// No next version could be given.
    Bump(BumpError),
    /// The commits of a package could not be scoped.
    Scope(ScopeError),
}

/// The update of one release set in one workspace.
#[derive(Debug)]
pub struct Update {
    cwd: String,
    release_set: ReleaseSet,
    tags: Vec<GitTag>,
    current_version: String,
}

/// Where the last `_v` of a tag name starts.
fn version_mark(tag: &Vec<char>) -> (r: Option<usize>)
    ensures
        match r {
            Some(mark) => mark + 2 <= tag@.len() && mark as int == last_version_mark(
                tag@,
                tag@.len() as int,
            ),
            None => last_version_mark(tag@, tag@.len() as int) < 0,
        },
{
    let mut upto: usize = tag.len();
    while upto >= 2
        invariant
            upto <= tag.len(),
            last_version_mark(tag@, upto as int) == last_version_mark(tag@, tag@.len() as int),
        decreases upto,
    {
        if tag[upto - 2] == '_' && tag[upto - 1] == 'v' {
            return Some(upto - 2);
        }
        upto -= 1;
    }
    None
}

impl GitTag {
    /// The tag that the commit `sha` carries under the name `tag`. The version
    /// is what follows the last `_v` of the name, or the whole name where it
    /// has none; it must be a semantic version.
    pub fn new(sha: String, tag: String) -> (r: Result<GitTag, HistoryError>)
        ensures
            match r {
                Ok(t) => t@ == (GitTagView { version: tag_version(tag@), sha: sha@ })
                    && semver_parse(tag_version(tag@)) is Some,
                Err(e) => e == HistoryError::UnparsableVersion && semver_parse(tag_version(tag@))
                    is None,
            },
    {
        let chars = chars_of(tag.as_str());
        let version = match version_mark(&chars) {
            Some(mark) => String::from_str(tag.as_str().substring_char(mark + 2, chars.len())),
            None => tag,
        };
        match SemVer::parse(version.as_str()) {
            Some(_) => Ok(GitTag { version, sha }),
            None => Err(HistoryError::UnparsableVersion),
        }
    }
}

/// The pattern that the tags of the release set `release` match, as text.
pub fn tag_pattern_source(release: &str) -> (r: String)
    ensures
        r@ == tag_pattern_text(release@),
{
    let mut text = String::from_str("^");
    text.append(release);
    text.append("_v[0-9]*");
    text
}

/// The pattern that selects the tags of the release set `release`, as the
/// text to compile. Fails where the name makes no valid pattern.
pub fn tag_pattern(release: &str) -> (r: Result<String, HistoryError>)
    ensures
        match r {
            Ok(text) => text@ == tag_pattern_text(release@) && regex_valid(text@),
            Err(e) => e == HistoryError::InvalidTagPattern && !regex_valid(
                tag_pattern_text(release@),
            ),
        },
{
    let text = tag_pattern_source(release);
    if regex_compiles(text.as_str()) {
        Ok(text)
    } else {
        Err(HistoryError::InvalidTagPattern)
    }
}

proof fn lemma_tags_fail(raw: Seq<(String, String)>, at: int, upto: int)
    requires
        0 <= at <= upto,
        parsed_tags(raw, at) is Err,
    ensures
        parsed_tags(raw, upto) == parsed_tags(raw, at),
    decreases upto - at,
{
    if at < upto {
        lemma_tags_fail(raw, at, upto - 1);
    }
}

proof fn lemma_jobs_fail(root: Seq<char>, packages: Seq<VersionedPackageView>, at: int, upto: int)
    requires
        0 <= at <= upto,
        changelog_jobs(root, packages, at) is Err,
    ensures
        changelog_jobs(root, packages, upto) == changelog_jobs(root, packages, at),
    decreases upto - at,
{
    if at < upto {
        lemma_jobs_fail(root, packages, at, upto - 1);
    }
}

/// The changelog jobs, one by one: there is one for each package, in order,
/// and its pattern is the include pattern of the package, a valid glob.
pub proof fn lemma_changelog_jobs(root: Seq<char>, packages: Seq<VersionedPackageView>, upto: int)
    requires
        0 <= upto,
        changelog_jobs(root, packages, upto) is Ok,
    ensures
        changelog_jobs(root, packages, upto).unwrap().len() == upto,
        forall|i: int|
            0 <= i < upto ==> {
                let job = #[trigger] changelog_jobs(root, packages, upto).unwrap()[i];
                &&& job.package == packages[i]
                &&& package_pattern(root, packages[i].dir) == Ok::<Seq<char>, ScopeError>(
                    job.pattern,
                )
                &&& glob_valid(job.pattern)
            },
    decreases upto,
{
    if upto > 0 {
        lemma_changelog_jobs(root, packages, upto - 1);
    }
}

/// Regeneration plans one release for each pair of tags that follow each
/// other, oldest first: the release at `i` holds the commits between the tags
/// at `i` and `i + 1` under the version of the later one.
pub proof fn lemma_regeneration_steps(tags: Seq<GitTagView>, upto: int)
    requires
        0 <= upto,
    ensures
        regeneration_steps(tags, upto).len() == upto,
        forall|i: int|
            0 <= i < upto ==> #[trigger] regeneration_steps(tags, upto)[i] == step_between(
                tags[i],
                tags[i + 1],
            ),
    decreases upto,
{
    if upto > 0 {
        lemma_regeneration_steps(tags, upto - 1);
    }
}

/// Regeneration depends on the tag history alone: two updates with the same
/// history plan the same releases, in the same order.
pub proof fn lemma_regeneration_is_repeatable(first: Update, second: Update)
    requires
        first.history() == second.history(),
    ensures
        regeneration_steps(first.history(), pair_count(first.history())) == regeneration_steps(
            second.history(),
            pair_count(second.history()),
        ),
{
}

impl Update {
    /// The workspace root.
    pub closed spec fn root(&self) -> Seq<char> {
        self.cwd@
    }

    pub closed spec fn release(&self) -> ReleaseSet {
        self.release_set
    }

    /// The tags of the release set, oldest first.
    pub closed spec fn history(&self) -> Seq<GitTagView> {
        tag_views(self.tags@)
    }

    /// The version that the last tag carries.
    pub closed spec fn current(&self) -> Seq<char> {
        self.current_version@
    }

    /// The packages of the release set.
    pub open spec fn governed(&self) -> Seq<VersionedPackageView> {
        packages_of_files(
            self.release().versioned_files@,
            self.release().versioned_files@.len() as int,
        )
    }

    /// The update of `release_set` in the workspace at `cwd`, given the tags
    /// of the release set as pairs of commit and tag name, oldest first.
    /// Fails where there is no tag, or where a tag carries no semantic
    /// version.
    pub fn new(cwd: String, release_set: ReleaseSet, raw_tags: &Vec<(String, String)>) -> (r: Result<
        Update,
        HistoryError,
    >)
        ensures
            match tag_history(raw_tags@) {
                Ok(tags) => {
                    &&& r matches Ok(update)
                    &&& update.root() == cwd@
                    &&& update.release() == release_set
                    &&& update.history() == tags
                    &&& update.current() == tags.last().version
                },
                Err(e) => r matches Err(f) && f == e,
            },
    {
        let mut tags: Vec<GitTag> = Vec::new();
        let mut i: usize = 0;
        assert(tag_views(tags@) =~= Seq::empty());
        while i < raw_tags.len()
            invariant
                i <= raw_tags.len(),
                parsed_tags(raw_tags@, i as int) == Ok::<Seq<GitTagView>, HistoryError>(
                    tag_views(tags@),
                ),
            decreases raw_tags.len() - i,
        {
            let sha = raw_tags[i].0.clone();
            let name = raw_tags[i].1.clone();
            match GitTag::new(sha, name) {
                Ok(tag) => {
                    assert(tag_views(tags@.push(tag)) =~= tag_views(tags@).push(tag@));
                    tags.push(tag);
                },
                Err(e) => {
                    proof {
                        assert(parsed_tags(raw_tags@, i + 1) is Err);
                        lemma_tags_fail(raw_tags@, i + 1, raw_tags@.len() as int);
                    }
                    return Err(e);
                },
            }
            i += 1;
        }
        if tags.len() == 0 {
            return Err(HistoryError::NoTags);
        }
        let current_version = tags[tags.len() - 1].version.clone();
        Ok(Update { cwd, release_set, tags, current_version })
    }

    /// The release set under update.
    pub fn release_set(&self) -> (r: &ReleaseSet)
        ensures
            *r == self.release(),
    {
        &self.release_set
    }

    /// The version that the last tag carries.
    pub fn current_version(&self) -> (r: &String)
        ensures
            r@ == self.current(),
    {
        &self.current_version
    }

    /// The range of the commits made since the current version was tagged.
    pub fn commits_range(&self) -> (r: String)
        ensures
            r@ == self.release().range_since(self.current()),
    {
        self.release_set.commits_range(self.current_version.as_str())
    }

    /// The next version, from the commits of the release set since the
    /// current version. Where the release set names scopes for breaking
    /// changes, commits out of scope are not counted.
    pub fn calculate_next_version(&self, commits: &Vec<Commit>) -> (r: Result<String, BumpError>)
        ensures
            match next_version_text(
                self.current(),
                messages_of(commits@),
                scope_views(self.release().scopes_for_breaking_change),
            ) {
                Ok(text) => r matches Ok(s) && s@ == text,
                Err(e) => r == Err::<String, BumpError>(e),
            },
    {
        next_version(
            self.current_version.as_str(),
            commits,
            &self.release_set.scopes_for_breaking_change,
        )
    }

    /// The include pattern of a package of the release set. Fails where the
    /// package does not lie strictly under the workspace root, or where its
    /// directory makes no valid glob.
    pub fn get_include_pattern(&self, package: &VersionedPackage) -> (r: Result<String, ScopeError>)
        ensures
            match package_pattern(self.root(), package.dir@) {
                Ok(text) => r matches Ok(s) && s@ == text,
                Err(e) => r == Err::<String, ScopeError>(e),
            },
    {
        let pattern = match include_pattern(self.cwd.as_str(), package.dir.as_str()) {
            Ok(p) => p,
            Err(e) => {
                return Err(e);
            },
        };
        if glob_is_valid(pattern.as_str()) {
            Ok(pattern)
        } else {
            Err(ScopeError::InvalidPattern)
        }
    }

    /// The changelog of each package of the release set: its include pattern
    /// and its file. The patterns together scope the commits of the whole
    /// release set. Fails at the first package without a pattern.
    pub fn changelog_jobs(&self) -> (r: Result<Vec<ChangelogJob>, ScopeError>)
        ensures
            match changelog_jobs(self.root(), self.governed(), self.governed().len() as int) {
                Ok(jobs) => r matches Ok(found) && job_views(found@) == jobs,
                Err(e) => r matches Err(f) && f == e,
            },
    {
        let packages = self.release_set.versioned_packages();
        let ghost governed = package_views(packages@);
        let mut jobs: Vec<ChangelogJob> = Vec::new();
        let mut i: usize = 0;
        assert(job_views(jobs@) =~= Seq::empty());
        while i < packages.len()
            invariant
                i <= packages.len(),
                governed == package_views(packages@),
                governed == self.governed(),
                changelog_jobs(self.root(), governed, i as int) == Ok::<Seq<JobView>, ScopeError>(
                    job_views(jobs@),
                ),
            decreases packages.len() - i,
        {
            assert(governed[i as int] == package_view(packages@[i as int]));
            match self.get_include_pattern(&packages[i]) {
                Ok(pattern) => {
                    let job = ChangelogJob {
                        package: packages[i].clone(),
                        pattern,
                        changelog_path: join(packages[i].dir.as_str(), "CHANGELOG.md"),
                    };
                    assert(job_views(jobs@.push(job)) =~= job_views(jobs@).push(job_view(job)));
                    jobs.push(job);
                },
                Err(e) => {
                    proof {
                        assert(changelog_jobs(self.root(), governed, i + 1) is Err);
                        lemma_jobs_fail(self.root(), governed, i + 1, governed.len() as int);
                    }
                    return Err(e);
                },
            }
            i += 1;
        }
        Ok(jobs)
    }

    /// Of the commits given, those of one package of the release set: the
    /// commits that changed a path under the package's directory, in the
    /// order given.
    pub fn get_commits_for_package<'a>(
        &self,
        package: &VersionedPackage,
        commits: &'a Vec<Commit>,
    ) -> (r: Result<Vec<&'a Commit>, ScopeError>)
        ensures
            match package_pattern(self.root(), package.dir@) {
                Ok(pattern) => r matches Ok(found) && found_commits(found@) == scoped(
                    commits@,
                    seq![pattern],
                    commits@.len() as int,
                ),
                Err(e) => r matches Err(f) && f == e,
            },
    {
        let pattern = match self.get_include_pattern(package) {
            Ok(p) => p,
            Err(e) => {
                return Err(e);
            },
        };
        let mut globs: Vec<String> = Vec::new();
        globs.push(pattern);
        assert(texts(globs@) =~= seq![pattern@]);
        scan(commits, &globs)
    }

    /// Of the commits given, those of the whole release set: the commits
    /// that changed a path under the directory of any of its packages, in the
    /// order given.
    pub fn get_commits_for_release<'a>(&self, commits: &'a Vec<Commit>) -> (r: Result<
        Vec<&'a Commit>,
        ScopeError,
    >)
        ensures
            match changelog_jobs(self.root(), self.governed(), self.governed().len() as int) {
                Ok(jobs) => r matches Ok(found) && found_commits(found@) == scoped(
                    commits@,
                    job_patterns(jobs),
                    commits@.len() as int,
                ),
                Err(e) => r matches Err(f) && f == e,
            },
    {
        let jobs = match self.changelog_jobs() {
            Ok(jobs) => jobs,
            Err(e) => {
                return Err(e);
            },
        };
        let ghost patterns = job_patterns(job_views(jobs@));
        proof {
            lemma_changelog_jobs(self.root(), self.governed(), self.governed().len() as int);
        }
        let mut globs: Vec<String> = Vec::new();
        let mut i: usize = 0;
        while i < jobs.len()
            invariant
                patterns == job_patterns(job_views(jobs@)),
                i <= jobs.len(),
                texts(globs@) =~= patterns.take(i as int),
            decreases jobs.len() - i,
        {
            let pattern = jobs[i].pattern.clone();
            assert(patterns[i as int] == jobs@[i as int].pattern@);
            assert(texts(globs@.push(pattern)) =~= texts(globs@).push(pattern@));
            assert(patterns.take(i + 1) =~= patterns.take(i as int).push(patterns[i as int]));
            globs.push(pattern);
            i += 1;
        }
        assert(texts(globs@) =~= patterns);
        scan(commits, &globs)
    }

    /// The release of the whole release set: its commits since the current
    /// version, under the next version, made at `now`.
    pub fn changelog_for_release(&self, commits: Vec<Commit>, now: i64) -> (r: Result<
        Release,
        BumpError,
    >)
        ensures
            match next_version_text(
                self.current(),
                messages_of(commits@),
                scope_views(self.release().scopes_for_breaking_change),
            ) {
                Ok(text) => {
                    &&& r matches Ok(release)
                    &&& release.version matches Some(v)
                    &&& v@ == text
                    &&& release.commits == commits
                    &&& release.timestamp == now
                },
                Err(e) => r matches Err(f) && f == e,
            },
    {
        match self.calculate_next_version(&commits) {
            Ok(next) => Ok(Release::new(next.as_str(), commits, now)),
            Err(e) => Err(e),
        }
    }

    /// Plans the release: the next version from the commits of the release
    /// set, then the changelog of each package, then the edits that write
    /// the next version into every versioned file.
    pub fn run(&self, commits: &Vec<Commit>) -> (r: Result<ReleasePlan, UpdateError>)
        ensures
            match next_version_text(
                self.current(),
                messages_of(commits@),
                scope_views(self.release().scopes_for_breaking_change),
            ) {
                Err(e) => r == Err::<ReleasePlan, UpdateError>(UpdateError::Bump(e)),
                Ok(next) => match changelog_jobs(
                    self.root(),
                    self.governed(),
                    self.governed().len() as int,
                ) {
                    Err(e) => r == Err::<ReleasePlan, UpdateError>(UpdateError::Scope(e)),
                    Ok(jobs) => {
                        &&& r matches Ok(plan)
                        &&& plan.next_version@ == next
                        &&& job_views(plan.changelogs@) == jobs
                        &&& edit_views(plan.edits@) == edits_of_files(
                            self.release().versioned_files@,
                            next,
                            self.release().versioned_files@.len() as int,
                        )
                    },
                },
            },
    {
        let next_version = match self.calculate_next_version(commits) {
            Ok(v) => v,
            Err(e) => {
                return Err(UpdateError::Bump(e));
            },
        };
        let changelogs = match self.changelog_jobs() {
            Ok(jobs) => jobs,
            Err(e) => {
                return Err(UpdateError::Scope(e));
            },
        };
        let edits = self.release_set.update_version(next_version.as_str());
        Ok(ReleasePlan { next_version, changelogs, edits })
    }

    /// The releases to render when the changelogs are regenerated: one for
    /// each pair of tags that follow each other, oldest first. The same tags
    /// always give the same steps.
    pub fn regenerate_changelogs(&self) -> (r: Vec<RegenerationStep>)
        ensures
            step_views(r@) == regeneration_steps(self.history(), pair_count(self.history())),
    {
        let ghost tags = tag_views(self.tags@);
        let mut steps: Vec<RegenerationStep> = Vec::new();
        assert(step_views(steps@) =~= regeneration_steps(tags, 0));
        if self.tags.len() == 0 {
            return steps;
        }
        let mut i: usize = 0;
        while i < self.tags.len() - 1
            invariant
                self.tags.len() > 0,
                i <= self.tags.len() - 1,
                tags == tag_views(self.tags@),
                step_views(steps@) == regeneration_steps(tags, i as int),
            decreases self.tags.len() - 1 - i,
        {
            let from = &self.tags[i];
            let to = &self.tags[i + 1];
            let mut range = from.sha.clone();
            range.append("..");
            range.append(to.sha.as_str());
            let step = RegenerationStep { range, version: to.version.clone(), sha: to.sha.clone() };
            assert(tags[i as int] == from@ && tags[i + 1] == to@);
            assert(step_views(steps@.push(step)) =~= step_views(steps@).push(step@));
            steps.push(step);
            i += 1;
        }
        steps
    }
}

} // verus!
