//! The next version of a release, derived from its commits.
//!
//! A commit that is marked breaking asks for a major bump, or for a minor one
//! while the major version is still 0; a `feat` commit asks for a minor bump;
//! any other commit for a patch bump. The largest request wins. Where a scope
//! filter is set, only commits whose scope holds one of the filter's texts
//! are counted at all.
use crate::commit::{
    classified, classify_commits, conventional_views, messages_of, Commit, ConventionalCommit,
    ConventionalView,
};
use crate::text::{contains, contains_text, decimal, decimal_string, chars_of};
use vstd::prelude::*;
use vstd::string::*;

verus! {

/// A semantic version.
#[derive(Clone, Debug)]
pub struct SemVer {
    pub major: u64,
    pub minor: u64,
    pub patch: u64,
    /// The pre-release part, without its leading `-`; empty where there is none.
    pub pre: String,
    /// The build metadata, without its leading `+`; empty where there is none.
    pub build: String,
}

pub struct SemVerView {
    pub major: nat,
    pub minor: nat,
    pub patch: nat,
    pub pre: Seq<char>,
    pub build: Seq<char>,
}

impl View for SemVer {
    type V = SemVerView;

    open spec fn view(&self) -> SemVerView {
        SemVerView {
            major: self.major as nat,
            minor: self.minor as nat,
            patch: self.patch as nat,
            pre: self.pre@,
            build: self.build@,
        }
    }
}

/// Which part of a version a release raises.
#[derive(Clone, Copy, Debug, PartialEq, Eq, Structural)]
pub enum Bump {
    Major,
    Minor,
    Patch,
}

/// Why no next version could be given.
#[derive(Clone, Copy, Debug, PartialEq, Eq, Structural)]
pub enum BumpError {
    /// No commit counts towards the release, so nothing justifies a version.
    NoCommits,
    /// The current version is no semantic version.
    InvalidVersion,
    /// The raised part would not fit in 64 bits.
    Overflow,
}

/// What `semver::Version::parse` makes of a text: the version it denotes, or
/// `None` where the text is no semantic version.
pub uninterp spec fn semver_parse(text: Seq<char>) -> Option<SemVerView>;

/// The error of `semver::Version::parse`.
#[verifier::external_type_specification]
#[verifier::external_body]
pub struct ExSemverError(cargo_metadata::semver::Error);

/// Parses `text` with `semver::Version::parse`. Trusted: the result depends
/// on the text alone; on success it holds the three numbers, the pre-release
/// part and the build metadata that the parser read.
#[verifier::external_body]
fn parse_semver(text: &str) -> (r: Result<SemVer, cargo_metadata::semver::Error>)
    ensures
        match r {
            Ok(v) => semver_parse(text@) == Some(v@),
            Err(_) => semver_parse(text@) is None,
        },
{
    let v = cargo_metadata::semver::Version::parse(text)?;
    Ok(
        SemVer {
            major: v.major,
            minor: v.minor,
            patch: v.patch,
            pre: v.pre.as_str().to_string(),
            build: v.build.as_str().to_string(),
        },
    )
}

/// `MAJOR.MINOR.PATCH`, then `-` and the pre-release part where there is one,
/// then `+` and the build metadata where there is any.
pub open spec fn rendered(v: SemVerView) -> Seq<char> {
    decimal(v.major) + seq!['.'] + decimal(v.minor) + seq!['.'] + decimal(v.patch) + (if v.pre.len()
        > 0 {
        seq!['-'] + v.pre
    } else {
        Seq::empty()
    }) + (if v.build.len() > 0 {
        seq!['+'] + v.build
    } else {
        Seq::empty()
    })
}

/// `v` with the part `b` raised by one, the parts after it set to 0, and the
/// pre-release part and build metadata dropped.
pub open spec fn raised(v: SemVerView, b: Bump) -> SemVerView {
    match b {
        Bump::Major => SemVerView {
            major: v.major + 1,
            minor: 0,
            patch: 0,
            pre: Seq::empty(),
            build: Seq::empty(),
        },
        Bump::Minor => SemVerView {
            major: v.major,
            minor: v.minor + 1,
            patch: 0,
            pre: Seq::empty(),
            build: Seq::empty(),
        },
        Bump::Patch => SemVerView {
            major: v.major,
            minor: v.minor,
            patch: v.patch + 1,
            pre: Seq::empty(),
            build: Seq::empty(),
        },
    }
}

/// The part that `b` raises, before it is raised.
pub open spec fn raised_part(v: SemVerView, b: Bump) -> nat {
    match b {
        Bump::Major => v.major,
        Bump::Minor => v.minor,
        Bump::Patch => v.patch,
    }
}

/// The type `feat`, in any mix of upper and lower case.
pub open spec fn is_feature(kind: Seq<char>) -> bool {
    &&& kind.len() == 4
    &&& (kind[0] == 'f' || kind[0] == 'F')
    &&& (kind[1] == 'e' || kind[1] == 'E')
    &&& (kind[2] == 'a' || kind[2] == 'A')
    &&& (kind[3] == 't' || kind[3] == 'T')
}

pub open spec fn scope_views(scopes: Option<Vec<String>>) -> Option<Seq<Seq<char>>> {
    match scopes {
        Some(s) => Some(s@.map_values(|t: String| t@)),
        None => None,
    }
}

/// The commit has a scope, and one of `scopes` stands in it.
pub open spec fn in_scope(c: ConventionalView, scopes: Seq<Seq<char>>) -> bool {
    c.scope matches Some(scope) && exists|i: int|
        0 <= i < scopes.len() && contains_text(scope, #[trigger] scopes[i])
}

/// The commit takes part in the calculation: no filter is set, or it is in
/// scope.
pub open spec fn counted(c: ConventionalView, filter: Option<Seq<Seq<char>>>) -> bool {
    match filter {
        Some(scopes) => in_scope(c, scopes),
        None => true,
    }
}

pub open spec fn any_counted(commits: Seq<ConventionalView>, filter: Option<Seq<Seq<char>>>) -> bool {
    exists|i: int| 0 <= i < commits.len() && counted(#[trigger] commits[i], filter)
}

pub open spec fn any_feature(commits: Seq<ConventionalView>, filter: Option<Seq<Seq<char>>>) -> bool {
    exists|i: int|
        0 <= i < commits.len() && counted(#[trigger] commits[i], filter) && is_feature(
            commits[i].kind,
        )
}

pub open spec fn any_breaking(commits: Seq<ConventionalView>, filter: Option<Seq<Seq<char>>>) -> bool {
    exists|i: int|
        0 <= i < commits.len() && counted(#[trigger] commits[i], filter) && commits[i].breaking
}

/// The bump that the counted commits ask for, or `None` where none is counted.
pub open spec fn required_bump(
    current: SemVerView,
    commits: Seq<ConventionalView>,
    filter: Option<Seq<Seq<char>>>,
) -> Option<Bump> {
    if any_breaking(commits, filter) {
        if current.major == 0 {
            Some(Bump::Minor)
        } else {
            Some(Bump::Major)
        }
    } else if any_feature(commits, filter) {
        Some(Bump::Minor)
    } else if any_counted(commits, filter) {
        Some(Bump::Patch)
    } else {
        None
    }
}

/// The version after `current`, given the classified commits of the release.
pub open spec fn version_after(
    current: SemVerView,
    commits: Seq<ConventionalView>,
    filter: Option<Seq<Seq<char>>>,
) -> Result<SemVerView, BumpError> {
    match required_bump(current, commits, filter) {
        None => Err(BumpError::NoCommits),
        Some(b) => if raised_part(current, b) >= u64::MAX {
            Err(BumpError::Overflow)
        } else {
            Ok(raised(current, b))
        },
    }
}

/// The next version as text, given the current version as text and the
/// commit messages of the release.
pub open spec fn next_version_text(
    current: Seq<char>,
    messages: Seq<Seq<char>>,
    filter: Option<Seq<Seq<char>>>,
) -> Result<Seq<char>, BumpError> {
    match semver_parse(current) {
        None => Err(BumpError::InvalidVersion),
        Some(v) => match version_after(v, classified(messages, messages.len() as int), filter) {
            Ok(next) => Ok(rendered(next)),
            Err(e) => Err(e),
        },
    }
}

/// The version after `current` in manual mode, as text.
pub open spec fn manual_bump_text(current: Seq<char>, b: Bump) -> Result<Seq<char>, BumpError> {
    match semver_parse(current) {
        None => Err(BumpError::InvalidVersion),
        Some(v) => if raised_part(v, b) >= u64::MAX {
            Err(BumpError::Overflow)
        } else {
            Ok(rendered(raised(v, b)))
        },
    }
}

/// A commit that is not counted has no part in the calculation: with it
/// taken out, the next version is the same. So a breaking commit out of scope
/// raises nothing, and what is left decides alone.
pub proof fn lemma_uncounted_commit_excluded(
    current: SemVerView,
    commits: Seq<ConventionalView>,
    filter: Option<Seq<Seq<char>>>,
    i: int,
)
    requires
        0 <= i < commits.len(),
        !counted(commits[i], filter),
    ensures
        required_bump(current, commits.remove(i), filter) == required_bump(
            current,
            commits,
            filter,
        ),
        version_after(current, commits.remove(i), filter) == version_after(
            current,
            commits,
            filter,
        ),
{
    let rest = commits.remove(i);
    commits.remove_ensures(i);
    assert forall|j: int| 0 <= j < rest.len() implies #[trigger] rest[j] == commits[if j < i {
        j
    } else {
        j + 1
    }] by {}
    if any_counted(commits, filter) {
        let j = choose|j: int| 0 <= j < commits.len() && counted(#[trigger] commits[j], filter);
        let k = if j < i { j } else { j - 1 };
        assert(counted(rest[k], filter));
    }
    if any_counted(rest, filter) {
        let j = choose|j: int| 0 <= j < rest.len() && counted(#[trigger] rest[j], filter);
        let k = if j < i { j } else { j + 1 };
        assert(counted(commits[k], filter));
    }
    if any_feature(commits, filter) {
        let j = choose|j: int|
            0 <= j < commits.len() && counted(#[trigger] commits[j], filter) && is_feature(
                commits[j].kind,
            );
        let k = if j < i { j } else { j - 1 };
        assert(counted(rest[k], filter) && is_feature(rest[k].kind));
    }
    if any_feature(rest, filter) {
        let j = choose|j: int|
            0 <= j < rest.len() && counted(#[trigger] rest[j], filter) && is_feature(rest[j].kind);
        let k = if j < i { j } else { j + 1 };
        assert(counted(commits[k], filter) && is_feature(commits[k].kind));
    }
    if any_breaking(commits, filter) {
        let j = choose|j: int|
            0 <= j < commits.len() && counted(#[trigger] commits[j], filter) && commits[j].breaking;
        let k = if j < i { j } else { j - 1 };
        assert(counted(rest[k], filter) && rest[k].breaking);
    }
    if any_breaking(rest, filter) {
        let j = choose|j: int|
            0 <= j < rest.len() && counted(#[trigger] rest[j], filter) && rest[j].breaking;
        let k = if j < i { j } else { j + 1 };
        assert(counted(commits[k], filter) && commits[k].breaking);
    }
}

/// A commit whose scope is shorter than every text of the filter, or that has
/// no scope, is not counted.
pub proof fn lemma_short_scope_not_counted(c: ConventionalView, scopes: Seq<Seq<char>>)
    requires
        c.scope matches Some(scope) ==> forall|i: int|
            0 <= i < scopes.len() ==> scope.len() < (#[trigger] scopes[i]).len(),
    ensures
        !counted(c, Some(scopes)),
{
}

fn is_feature_exec(kind: &str) -> (r: bool)
    ensures
        r == is_feature(kind@),
{
    let k = chars_of(kind);
    k.len() == 4 && (k[0] == 'f' || k[0] == 'F') && (k[1] == 'e' || k[1] == 'E') && (k[2] == 'a'
        || k[2] == 'A') && (k[3] == 't' || k[3] == 'T')
}

fn in_scope_exec(c: &ConventionalCommit, scopes: &Vec<String>) -> (r: bool)
    ensures
        r == in_scope(c@, scopes@.map_values(|t: String| t@)),
{
    let ghost views = scopes@.map_values(|t: String| t@);
    match &c.scope {
        None => false,
        Some(scope) => {
            let mut i: usize = 0;
            while i < scopes.len()
                invariant
                    views == scopes@.map_values(|t: String| t@),
                    c@.scope == Some(scope@),
                    i <= scopes.len(),
                    forall|j: int| 0 <= j < i ==> !contains_text(scope@, #[trigger] views[j]),
                decreases scopes.len() - i,
            {
                assert(views[i as int] == scopes@[i as int]@);
                if contains(scope.as_str(), scopes[i].as_str()) {
                    return true;
                }
                i += 1;
            }
            false
        },
    }
}

fn counted_exec(c: &ConventionalCommit, filter: &Option<Vec<String>>) -> (r: bool)
    ensures
        r == counted(c@, scope_views(*filter)),
{
    match filter {
        Some(scopes) => in_scope_exec(c, scopes),
        None => true,
    }
}

impl SemVer {
    /// Reads a semantic version.
    pub fn parse(text: &str) -> (r: Option<SemVer>)
        ensures
            match r {
                Some(v) => semver_parse(text@) == Some(v@),
                None => semver_parse(text@) is None,
            },
    {
        match parse_semver(text) {
            Ok(v) => Some(v),
            Err(_) => None,
        }
    }

    /// Writes the version as text.
    pub fn render(&self) -> (s: String)
        ensures
            s@ == rendered(self@),
    {
        let mut s = decimal_string(self.major);
        proof {
            reveal_strlit(".");
            reveal_strlit("-");
            reveal_strlit("+");
        }
        s.append(".");
        s.append(decimal_string(self.minor).as_str());
        s.append(".");
        s.append(decimal_string(self.patch).as_str());
        assert("."@ =~= seq!['.']);
        if self.pre.as_str().unicode_len() > 0 {
            s.append("-");
            s.append(self.pre.as_str());
            assert("-"@ =~= seq!['-']);
        }
        if self.build.as_str().unicode_len() > 0 {
            s.append("+");
            s.append(self.build.as_str());
            assert("+"@ =~= seq!['+']);
        }
        assert(s@ =~= rendered(self@));
        s
    }

    /// Raises one part of the version: the major part with the others set to
    /// 0, the minor part with the patch set to 0, or the patch. Pre-release
    /// part and build metadata are dropped.
    pub fn bump(&self, b: Bump) -> (r: Result<SemVer, BumpError>)
        ensures
            raised_part(self@, b) >= u64::MAX ==> r == Err::<SemVer, BumpError>(BumpError::Overflow),
            raised_part(self@, b) < u64::MAX ==> (r matches Ok(v) && v@ == raised(self@, b)),
    {
        let part = match b {
            Bump::Major => self.major,
            Bump::Minor => self.minor,
            Bump::Patch => self.patch,
        };
        if part == u64::MAX {
            return Err(BumpError::Overflow);
        }
        let v = match b {
            Bump::Major => SemVer {
                major: self.major + 1,
                minor: 0,
                patch: 0,
                pre: String::new(),
                build: String::new(),
            },
            Bump::Minor => SemVer {
                major: self.major,
                minor: self.minor + 1,
                patch: 0,
                pre: String::new(),
                build: String::new(),
            },
            Bump::Patch => SemVer {
                major: self.major,
                minor: self.minor,
                patch: self.patch + 1,
                pre: String::new(),
                build: String::new(),
            },
        };
        Ok(v)
    }
}

/// The bump that the commits ask for: major for a breaking commit (minor
/// while the major version is 0), else minor for a `feat` commit, else patch
/// for any commit. With a scope filter, commits out of scope are not counted.
pub fn bump_for(current: &SemVer, commits: &Vec<ConventionalCommit>, filter: &Option<Vec<String>>) -> (r:
    Option<Bump>)
    ensures
        r == required_bump(current@, conventional_views(commits@), scope_views(*filter)),
{
    let ghost views = conventional_views(commits@);
    let ghost scopes = scope_views(*filter);
    let mut any = false;
    let mut feature = false;
    let mut breaking = false;
    let mut i: usize = 0;
    while i < commits.len()
        invariant
            views == conventional_views(commits@),
            scopes == scope_views(*filter),
            i <= commits.len(),
            any == any_counted(views.take(i as int), scopes),
            feature == any_feature(views.take(i as int), scopes),
            breaking == any_breaking(views.take(i as int), scopes),
        decreases commits.len() - i,
    {
        let c = &commits[i];
        let ghost before = views.take(i as int);
        let ghost after = views.take(i + 1);
        assert(views[i as int] == c@);
        assert(after[i as int] == c@);
        assert(forall|j: int| 0 <= j < i ==> before[j] == after[j]);
        let counts = counted_exec(c, filter);
        let feat = is_feature_exec(c.kind.as_str());
        proof {
            if any_counted(before, scopes) {
                let j = choose|j: int| 0 <= j < before.len() && counted(#[trigger] before[j], scopes);
                assert(counted(after[j], scopes));
            }
            if any_feature(before, scopes) {
                let j = choose|j: int|
                    0 <= j < before.len() && counted(#[trigger] before[j], scopes) && is_feature(
                        before[j].kind,
                    );
                assert(counted(after[j], scopes) && is_feature(after[j].kind));
            }
            if any_breaking(before, scopes) {
                let j = choose|j: int|
                    0 <= j < before.len() && counted(#[trigger] before[j], scopes)
                        && before[j].breaking;
                assert(counted(after[j], scopes) && after[j].breaking);
            }
            if any_counted(after, scopes) && !(counts || any) {
                let j = choose|j: int| 0 <= j < after.len() && counted(#[trigger] after[j], scopes);
                assert(counted(before[j], scopes));
            }
            if any_feature(after, scopes) && !((counts && feat) || feature) {
                let j = choose|j: int|
                    0 <= j < after.len() && counted(#[trigger] after[j], scopes) && is_feature(
                        after[j].kind,
                    );
                assert(counted(before[j], scopes) && is_feature(before[j].kind));
            }
            if any_breaking(after, scopes) && !((counts && c.breaking) || breaking) {
                let j = choose|j: int|
                    0 <= j < after.len() && counted(#[trigger] after[j], scopes)
                        && after[j].breaking;
                assert(counted(before[j], scopes) && before[j].breaking);
            }
        }
        if counts {
            any = true;
            if feat {
                feature = true;
            }
            if c.breaking {
                breaking = true;
            }
        }
        i += 1;
    }
    assert(views.take(commits@.len() as int) == views);
    if breaking {
        if current.major == 0 {
            Some(Bump::Minor)
        } else {
            Some(Bump::Major)
        }
    } else if feature {
        Some(Bump::Minor)
    } else if any {
        Some(Bump::Patch)
    } else {
        None
    }
}

/// The version that follows `current`, given the classified commits of the
/// release. Fails where no commit counts, or where the raised part would
/// overflow.
pub fn next_semver(
    current: &SemVer,
    commits: &Vec<ConventionalCommit>,
    filter: &Option<Vec<String>>,
) -> (r: Result<SemVer, BumpError>)
    ensures
        match version_after(current@, conventional_views(commits@), scope_views(*filter)) {
            Ok(v) => r matches Ok(next) && next@ == v,
            Err(e) => r == Err::<SemVer, BumpError>(e),
        },
{
    match bump_for(current, commits, filter) {
        None => Err(BumpError::NoCommits),
        Some(b) => current.bump(b),
    }
}

/// The next version of a release whose current version is `current_version`,
/// from the commits since then. Commits that do not follow the
/// conventional-commit grammar are left out; so are, where `scope_filter` is
/// set, those out of scope.
pub fn next_version(
    current_version: &str,
    commits: &Vec<Commit>,
    scope_filter: &Option<Vec<String>>,
) -> (r: Result<String, BumpError>)
    ensures
        match next_version_text(current_version@, messages_of(commits@), scope_views(*scope_filter)) {
            Ok(text) => r matches Ok(s) && s@ == text,
            Err(e) => r == Err::<String, BumpError>(e),
        },
{
    let current = match SemVer::parse(current_version) {
        Some(v) => v,
        None => {
            return Err(BumpError::InvalidVersion);
        },
    };
    let conventional = classify_commits(commits);
    match next_semver(&current, &conventional, scope_filter) {
        Ok(next) => Ok(next.render()),
        Err(e) => Err(e),
    }
}

/// The next version in manual mode: raises the chosen part of the current
/// version without looking at any commit.
pub fn manual_bump(current_version: &str, b: Bump) -> (r: Result<String, BumpError>)
    ensures
        match manual_bump_text(current_version@, b) {
            Ok(text) => r matches Ok(s) && s@ == text,
            Err(e) => r == Err::<String, BumpError>(e),
        },
{
    let current = match SemVer::parse(current_version) {
        Some(v) => v,
        None => {
            return Err(BumpError::InvalidVersion);
        },
    };
    match current.bump(b) {
        Ok(next) => Ok(next.render()),
        Err(e) => Err(e),
    }
}

} // verus!
