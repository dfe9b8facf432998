//! Which commits belong to a package: the include pattern of a package
//! directory, and the commits whose changed paths match a set of patterns.
//!
//! Paths are texts whose components are separated by `/`.
use crate::commit::Commit;
use crate::text::chars_of;
use vstd::prelude::*;
use vstd::string::*;

verus! {

/// Why a package's history could not be scoped.
#[derive(Clone, Copy, Debug, PartialEq, Eq, Structural)]
pub enum ScopeError {
    /// The package directory does not lie strictly under the workspace root.
    NotUnderRoot,
    /// An include pattern is no valid glob pattern.
    InvalidPattern,
}

/// `root` as the prefix that every path under it starts with: `root` itself
/// where it is empty or ends in `/`, else `root` and a `/`.
pub open spec fn root_prefix(root: Seq<char>) -> Seq<char> {
    if root.len() == 0 || root.last() == '/' {
        root
    } else {
        root.push('/')
    }
}

/// What is left of `dir` after the workspace root, where `dir` lies strictly
/// under it.
pub open spec fn relative_to(root: Seq<char>, dir: Seq<char>) -> Option<Seq<char>> {
    let prefix = root_prefix(root);
    if prefix.len() < dir.len() && dir.subrange(0, prefix.len() as int) == prefix {
        Some(dir.subrange(prefix.len() as int, dir.len() as int))
    } else {
        None
    }
}

/// The pattern that matches everything under the package directory `dir`,
/// relative to the workspace root: the relative directory, then `/**`.
pub open spec fn include_pattern_text(root: Seq<char>, dir: Seq<char>) -> Result<
    Seq<char>,
    ScopeError,
> {
    match relative_to(root, dir) {
        Some(rel) => Ok(rel + seq!['/', '*', '*']),
        None => Err(ScopeError::NotUnderRoot),
    }
}

/// Whether `glob::Pattern::new` accepts a pattern.
pub uninterp spec fn glob_valid(pattern: Seq<char>) -> bool;

/// Whether the compiled form of a valid pattern matches a path, by
/// `glob::Pattern::matches`.
pub uninterp spec fn glob_match(pattern: Seq<char>, path: Seq<char>) -> bool;

/// Compiles `pattern` with `glob::Pattern::new` and says whether that
/// succeeded. Trusted: the answer depends on the pattern's text alone.
#[verifier::external_body]
pub(crate) fn glob_is_valid(pattern: &str) -> (r: bool)
    ensures
        r == glob_valid(pattern@),
{
    glob::Pattern::new(pattern).is_ok()
}

/// Compiles `pattern` with `glob::Pattern::new` and matches `path` against
/// it with `glob::Pattern::matches`, under the default match options.
/// Trusted: `None` exactly for a pattern that does not compile; else the
/// answer depends on the two texts alone.
#[verifier::external_body]
fn glob_matches(pattern: &str, path: &str) -> (r: Option<bool>)
    ensures
        r == if glob_valid(pattern@) {
            Some(glob_match(pattern@, path@))
        } else {
            None
        },
{
    glob::Pattern::new(pattern).ok().map(|p| p.matches(path))
}

pub open spec fn texts(v: Seq<String>) -> Seq<Seq<char>> {
    v.map_values(|s: String| s@)
}

pub open spec fn all_valid(patterns: Seq<Seq<char>>) -> bool {
    forall|i: int| 0 <= i < patterns.len() ==> glob_valid(#[trigger] patterns[i])
}

/// One of the patterns matches the path.
pub open spec fn path_matches(patterns: Seq<Seq<char>>, path: Seq<char>) -> bool {
    exists|i: int| 0 <= i < patterns.len() && glob_match(#[trigger] patterns[i], path)
}

/// One of the paths the commit changed matches one of the patterns.
pub open spec fn touches(patterns: Seq<Seq<char>>, paths: Seq<Seq<char>>) -> bool {
    exists|j: int| 0 <= j < paths.len() && path_matches(patterns, #[trigger] paths[j])
}

/// Of the first `upto` commits, those that touch the patterns, in order.
pub open spec fn scoped(commits: Seq<Commit>, patterns: Seq<Seq<char>>, upto: int) -> Seq<Commit>
    decreases upto,
{
    if upto <= 0 {
        Seq::empty()
    } else if touches(patterns, texts(commits[upto - 1].paths@)) {
        scoped(commits, patterns, upto - 1).push(commits[upto - 1])
    } else {
        scoped(commits, patterns, upto - 1)
    }
}

/// The commits that a list of references refers to.
pub open spec fn found_commits(found: Seq<&Commit>) -> Seq<Commit> {
    found.map_values(|c: &Commit| *c)
}

/// The directory `dir` relative to the workspace root, where it lies strictly
/// under it.
pub fn relative_dir(root: &str, dir: &str) -> (r: Option<String>)
    ensures
        match relative_to(root@, dir@) {
            Some(rel) => r matches Some(s) && s@ == rel,
            None => r is None,
        },
{
    let r = chars_of(root);
    let d = chars_of(dir);
    let slash: usize = if r.len() == 0 || r[r.len() - 1] == '/' {
        0
    } else {
        1
    };
    let ghost prefix = root_prefix(root@);
    if d.len() <= r.len() || (slash == 1 && d.len() == r.len() + 1) {
        return None;
    }
    assert(prefix.len() == r.len() + slash);
    assert(forall|j: int| 0 <= j < r.len() ==> prefix[j] == r@[j]);
    let mut i: usize = 0;
    while i < r.len()
        invariant
            r@ == root@,
            d@ == dir@,
            prefix == root_prefix(root@),
            prefix.len() == r.len() + slash,
            prefix.len() < d.len(),
            forall|j: int| 0 <= j < r.len() ==> prefix[j] == r@[j],
            i <= r.len(),
            forall|j: int| 0 <= j < i ==> d@[j] == r@[j],
        decreases r.len() - i,
    {
        if d[i] != r[i] {
            assert(dir@.subrange(0, prefix.len() as int)[i as int] != prefix[i as int]);
            return None;
        }
        i += 1;
    }
    if slash == 1 && d[r.len()] != '/' {
        assert(dir@.subrange(0, prefix.len() as int)[root@.len() as int] != prefix[root@.len() as int]);
        return None;
    }
    assert(dir@.subrange(0, prefix.len() as int) =~= prefix);
    let rest = dir.substring_char(r.len() + slash, d.len());
    Some(String::from_str(rest))
}

/// The include pattern of a package directory: everything under it, relative
/// to the workspace root. Fails where the directory does not lie strictly
/// under the root.
pub fn include_pattern(root: &str, dir: &str) -> (r: Result<String, ScopeError>)
    ensures
        match include_pattern_text(root@, dir@) {
            Ok(text) => r matches Ok(s) && s@ == text,
            Err(e) => r == Err::<String, ScopeError>(e),
        },
{
    match relative_dir(root, dir) {
        Some(rel) => {
            let mut pattern = rel;
            proof {
                reveal_strlit("/**");
            }
            pattern.append("/**");
            assert("/**"@ =~= seq!['/', '*', '*']);
            Ok(pattern)
        },
        None => Err(ScopeError::NotUnderRoot),
    }
}

/// Whether every pattern compiles.
pub fn patterns_valid(patterns: &Vec<String>) -> (r: bool)
    ensures
        r == all_valid(texts(patterns@)),
{
    let ghost views = texts(patterns@);
    let mut i: usize = 0;
    while i < patterns.len()
        invariant
            views == texts(patterns@),
            i <= patterns.len(),
            forall|j: int| 0 <= j < i ==> glob_valid(#[trigger] views[j]),
        decreases patterns.len() - i,
    {
        assert(views[i as int] == patterns@[i as int]@);
        if !glob_is_valid(patterns[i].as_str()) {
            return false;
        }
        i += 1;
    }
    true
}

fn path_matches_exec(patterns: &Vec<String>, path: &str) -> (r: bool)
    requires
        all_valid(texts(patterns@)),
    ensures
        r == path_matches(texts(patterns@), path@),
{
    let ghost views = texts(patterns@);
    let mut i: usize = 0;
    while i < patterns.len()
        invariant
            views == texts(patterns@),
            all_valid(views),
            i <= patterns.len(),
            forall|j: int| 0 <= j < i ==> !glob_match(#[trigger] views[j], path@),
        decreases patterns.len() - i,
    {
        assert(views[i as int] == patterns@[i as int]@);
        assert(glob_valid(views[i as int]));
        match glob_matches(patterns[i].as_str(), path) {
            Some(true) => {
                return true;
            },
            _ => {},
        }
        i += 1;
    }
    false
}

/// Whether the commit changed a path that one of the patterns matches.
pub fn commit_touches(commit: &Commit, patterns: &Vec<String>) -> (r: bool)
    requires
        all_valid(texts(patterns@)),
    ensures
        r == touches(texts(patterns@), texts(commit.paths@)),
{
    let ghost paths = texts(commit.paths@);
    let mut j: usize = 0;
    while j < commit.paths.len()
        invariant
            paths == texts(commit.paths@),
            all_valid(texts(patterns@)),
            j <= commit.paths.len(),
            forall|k: int| 0 <= k < j ==> !path_matches(texts(patterns@), #[trigger] paths[k]),
        decreases commit.paths.len() - j,
    {
        assert(paths[j as int] == commit.paths@[j as int]@);
        if path_matches_exec(patterns, commit.paths[j].as_str()) {
            return true;
        }
        j += 1;
    }
    false
}

/// The commits, of those given, that belong to the scope of the include
/// patterns: exactly those with a changed path that at least one pattern
/// matches, in the order given. Fails where a pattern is no valid glob.
pub fn scan<'a>(commits: &'a Vec<Commit>, include_globs: &Vec<String>) -> (r: Result<
    Vec<&'a Commit>,
    ScopeError,
>)
    ensures
        !all_valid(texts(include_globs@)) ==> r == Err::<Vec<&'a Commit>, ScopeError>(
            ScopeError::InvalidPattern,
        ),
        all_valid(texts(include_globs@)) ==> (r matches Ok(found) && found_commits(found@) == scoped(
            commits@,
            texts(include_globs@),
            commits@.len() as int,
        )),
{
    if !patterns_valid(include_globs) {
        return Err(ScopeError::InvalidPattern);
    }
    let ghost patterns = texts(include_globs@);
    let mut found: Vec<&'a Commit> = Vec::new();
    let mut i: usize = 0;
    assert(found_commits(found@) =~= scoped(commits@, patterns, 0));
    while i < commits.len()
        invariant
            patterns == texts(include_globs@),
            all_valid(patterns),
            i <= commits.len(),
            found_commits(found@) == scoped(commits@, patterns, i as int),
        decreases commits.len() - i,
    {
        if commit_touches(&commits[i], include_globs) {
            assert(found_commits(found@.push(&commits[i as int])) =~= found_commits(found@).push(
                commits@[i as int],
            ));
            found.push(&commits[i]);
        }
        i += 1;
    }
    Ok(found)
}

} // verus!
