//! File paths as text: components separated by `/`.
use crate::text::chars_of;
use vstd::prelude::*;
use vstd::string::*;

verus! {

/// The last position at which `/` stands in the first `upto` characters of
/// `path`, or -1 where it does not.
pub open spec fn last_slash(path: Seq<char>, upto: int) -> int
    decreases upto,
{
    if upto <= 0 {
        -1
    } else if path[upto - 1] == '/' {
        upto - 1
    } else {
        last_slash(path, upto - 1)
    }
}

/// The last component of a path: what follows its last `/`, or all of it.
/// `None` where nothing follows.
pub open spec fn file_name_of(path: Seq<char>) -> Option<Seq<char>> {
    let cut = last_slash(path, path.len() as int) + 1;
    if cut >= path.len() {
        None
    } else {
        Some(path.subrange(cut, path.len() as int))
    }
}

/// The directory that holds the last component of a path: what stands before
/// the last `/`; the root `/` where that is the path's first character; the
/// empty path where there is no `/`. `None` where the path has no last
/// component.
pub open spec fn parent_of(path: Seq<char>) -> Option<Seq<char>> {
    let slash = last_slash(path, path.len() as int);
    if slash + 1 >= path.len() {
        None
    } else if slash == 0 {
        Some(path.subrange(0, 1))
    } else if slash < 0 {
        Some(Seq::empty())
    } else {
        Some(path.subrange(0, slash))
    }
}

/// `dir`, a `/` unless `dir` is empty or ends in one, then `name`.
pub open spec fn joined(dir: Seq<char>, name: Seq<char>) -> Seq<char> {
    if dir.len() == 0 || dir.last() == '/' {
        dir + name
    } else {
        dir.push('/') + name
    }
}

pub proof fn lemma_last_slash(path: Seq<char>, upto: int)
    requires
        0 <= upto <= path.len(),
    ensures
        -1 <= last_slash(path, upto) < upto,
        last_slash(path, upto) >= 0 ==> path[last_slash(path, upto)] == '/',
        forall|j: int| last_slash(path, upto) < j < upto ==> path[j] != '/',
    decreases upto,
{
    if upto > 0 && path[upto - 1] != '/' {
        lemma_last_slash(path, upto - 1);
    }
}

/// One more than the position of the last `/` of the path, or 0.
fn after_last_slash(chars: &Vec<char>) -> (r: usize)
    ensures
        r as int == last_slash(chars@, chars@.len() as int) + 1,
{
    let mut i: usize = chars.len();
    while i > 0
        invariant
            i <= chars.len(),
            last_slash(chars@, i as int) == last_slash(chars@, chars@.len() as int),
        decreases i,
    {
        if chars[i - 1] == '/' {
            return i;
        }
        i -= 1;
    }
    0
}

/// The last component of a path.
pub fn file_name(path: &str) -> (r: Option<String>)
    ensures
        match file_name_of(path@) {
            Some(name) => r matches Some(s) && s@ == name,
            None => r is None,
        },
{
    let chars = chars_of(path);
    let cut = after_last_slash(&chars);
    proof {
        lemma_last_slash(path@, path@.len() as int);
    }
    if cut >= chars.len() {
        None
    } else {
        Some(String::from_str(path.substring_char(cut, chars.len())))
    }
}

/// The directory that holds the last component of a path.
pub fn parent(path: &str) -> (r: Option<String>)
    ensures
        match parent_of(path@) {
            Some(dir) => r matches Some(s) && s@ == dir,
            None => r is None,
        },
{
    let chars = chars_of(path);
    let cut = after_last_slash(&chars);
    proof {
        lemma_last_slash(path@, path@.len() as int);
    }
    if cut >= chars.len() {
        None
    } else if cut == 1 {
        Some(String::from_str(path.substring_char(0, 1)))
    } else if cut == 0 {
        Some(String::new())
    } else {
        Some(String::from_str(path.substring_char(0, cut - 1)))
    }
}

/// The path of `name` inside the directory `dir`.
pub fn join(dir: &str, name: &str) -> (r: String)
    ensures
        r@ == joined(dir@, name@),
{
    let chars = chars_of(dir);
    let mut r = String::from_str(dir);
    if chars.len() > 0 && chars[chars.len() - 1] != '/' {
        proof {
            reveal_strlit("/");
        }
        r.append("/");
        assert("/"@ =~= seq!['/']);
    }
    r.append(name);
    assert(r@ =~= joined(dir@, name@));
    r
}

} // verus!
