//! Commits as the release logic reads them: the raw record from history, and
//! its classification by the conventional-commit grammar.
use vstd::prelude::*;

verus! {

/// A commit as read from history.
#[derive(Clone, Debug)]
pub struct Commit {
    pub id: String,
    pub message: String,
    /// The paths the commit changed, relative to the workspace root.
    pub paths: Vec<String>,
}

pub struct CommitView {
    pub id: Seq<char>,
    pub message: Seq<char>,
    pub paths: Seq<Seq<char>>,
}

impl View for Commit {
    type V = CommitView;

    open spec fn view(&self) -> CommitView {
        CommitView {
            id: self.id@,
            message: self.message@,
            paths: self.paths@.map_values(|p: String| p@),
        }
    }
}

/// What the conventional-commit grammar says of a commit message.
#[derive(Clone, Debug)]
pub struct ConventionalCommit {
    /// The type, as written: `feat`, `fix`, ...
    pub kind: String,
    pub scope: Option<String>,
    pub breaking: bool,
}

pub struct ConventionalView {
    pub kind: Seq<char>,
    pub scope: Option<Seq<char>>,
    pub breaking: bool,
}

impl View for ConventionalCommit {
    type V = ConventionalView;

    open spec fn view(&self) -> ConventionalView {
        ConventionalView {
            kind: self.kind@,
            scope: match self.scope {
                Some(s) => Some(s@),
                None => None,
            },
            breaking: self.breaking,
        }
    }
}

/// What `git_conventional`'s parser makes of a commit message: its type, scope
/// and breaking flag, or `None` where the message does not follow the grammar.
pub uninterp spec fn conventional_parse(message: Seq<char>) -> Option<ConventionalView>;

/// Parses `message` with `git_cliff_core::commit::Commit::into_conventional`,
/// which hands it to `git_conventional::Commit::parse`. Trusted: the result
/// depends on the message alone, and is its type, scope and breaking flag as
/// the parser reports them, or `None` where the parser rejects the message.
#[verifier::external_body]
fn parse_conventional(message: &str) -> (r: Option<ConventionalCommit>)
    ensures
        match r {
            Some(c) => conventional_parse(message@) == Some(c@),
            None => conventional_parse(message@) is None,
        },
{
    let commit = git_cliff_core::commit::Commit::new(String::new(), message.to_string());
    let conv = commit.into_conventional().ok()?.conv?;
    Some(
        ConventionalCommit {
            kind: conv.type_().as_str().to_string(),
            scope: conv.scope().map(|s| s.as_str().to_string()),
            breaking: conv.breaking(),
        },
    )
}

/// The classifications of the first `upto` messages that follow the grammar,
/// in order.
pub open spec fn classified(messages: Seq<Seq<char>>, upto: int) -> Seq<ConventionalView>
    decreases upto,
{
    if upto <= 0 {
        Seq::empty()
    } else {
        match conventional_parse(messages[upto - 1]) {
            Some(c) => classified(messages, upto - 1).push(c),
            None => classified(messages, upto - 1),
        }
    }
}

pub open spec fn messages_of(commits: Seq<Commit>) -> Seq<Seq<char>> {
    commits.map_values(|c: Commit| c.message@)
}

pub open spec fn conventional_views(commits: Seq<ConventionalCommit>) -> Seq<ConventionalView> {
    commits.map_values(|c: ConventionalCommit| c@)
}

/// Classifies the commits; those whose message does not follow the grammar
/// are left out.
pub fn classify_commits(commits: &Vec<Commit>) -> (r: Vec<ConventionalCommit>)
    ensures
        conventional_views(r@) == classified(messages_of(commits@), commits@.len() as int),
{
    let ghost messages = messages_of(commits@);
    let mut out: Vec<ConventionalCommit> = Vec::new();
    let mut i: usize = 0;
    assert(conventional_views(out@) =~= classified(messages, 0));
    while i < commits.len()
        invariant
            messages == messages_of(commits@),
            i <= commits.len(),
            conventional_views(out@) == classified(messages, i as int),
        decreases commits.len() - i,
    {
        assert(messages[i as int] == commits@[i as int].message@);
        match parse_conventional(commits[i].message.as_str()) {
            Some(c) => {
                assert(conventional_views(out@.push(c)) =~= conventional_views(out@).push(c@));
                out.push(c);
            },
            None => {},
        }
        i += 1;
    }
    out
}

} // verus!
