//! Matching a relative path against an ordered list of glob patterns.

use globset::{Glob, GlobSetBuilder};
use vstd::prelude::*;

verus! {

/// A string is portable when it holds no backslash. A backslash escapes on
/// some platforms and separates path segments on others, so only strings
/// without one mean the same everywhere.
pub open spec fn portable(text: Seq<char>) -> bool {
    forall|i: int| 0 <= i < text.len() ==> text[i] != '\\'
}

/// What the `globset` crate, with its default options, says of `pattern`
/// and `path`: `None` where it refuses the pattern, else whether the
/// pattern matches the whole path.
pub uninterp spec fn glob_verdict(pattern: Seq<char>, path: Seq<char>) -> Option<bool>;

/// Parses `pattern` with `globset::Glob::new`, builds a one-pattern
/// `globset::GlobSet` from it with `GlobSetBuilder::build` and asks
/// `GlobSet::is_match` about `path`. The result is `None` where parsing or
/// building returns an error. It is taken to depend on the two strings
/// alone, which the crate's source shows for strings without a backslash.
#[verifier::external_body]
fn glob_try(pattern: &str, path: &str) -> (verdict: Option<bool>)
    requires
        portable(pattern@),
        portable(path@),
    ensures
        verdict == glob_verdict(pattern@, path@),
{
    let glob = Glob::new(pattern).ok()?;
    let set = GlobSetBuilder::new().add(glob).build().ok()?;
    Some(set.is_match(path))
}

/// Whether `text` holds no backslash.
pub fn is_portable(text: &str) -> (ok: bool)
    ensures
        ok == portable(text@),
{
    broadcast use vstd::string::group_string_axioms;

    let mut ok = true;
    for c in it: text.chars()
        invariant
            it.seq() == text@,
            ok == (forall|i: int| 0 <= i < it.index() ==> text@[i] != '\\'),
    {
        if c == '\\' {
            ok = false;
        }
    }
    ok
}

/// The texts of a list of strings, as the contracts speak of them.
pub open spec fn texts(list: Seq<String>) -> Seq<Seq<char>> {
    Seq::new(list.len(), |i: int| list[i]@)
}

/// Whether one pattern matches one relative path. The pattern `.` stands for
/// the root and matches the empty path only. Any other pattern is a glob; it
/// matches nothing unless both it and the path are portable and it is well
/// formed.
pub open spec fn pattern_matches(pattern: Seq<char>, path: Seq<char>) -> bool {
    if pattern == seq!['.'] {
        path.len() == 0
    } else {
        portable(pattern) && portable(path) && glob_verdict(pattern, path) == Some(true)
    }
}

/// Whether a pattern can match anything at all: it is the root pattern, or
/// it is portable and a well-formed glob.
pub open spec fn valid_pattern(pattern: Seq<char>) -> bool {
    pattern == seq!['.'] || (portable(pattern) && glob_verdict(pattern, Seq::empty()) is Some)
}

/// The index of the first pattern at or after `from` that matches `path`.
pub open spec fn first_match_from(patterns: Seq<Seq<char>>, path: Seq<char>, from: int) -> Option<
    int,
>
    decreases patterns.len() - from,
{
    if from < 0 || from >= patterns.len() {
        None
    } else if pattern_matches(patterns[from], path) {
        Some(from)
    } else {
        first_match_from(patterns, path, from + 1)
    }
}

/// The index of the first pattern, in list order, that matches `path`.
pub open spec fn first_match(patterns: Seq<Seq<char>>, path: Seq<char>) -> Option<int> {
    first_match_from(patterns, path, 0)
}

/// Whether any pattern of the list matches `path`.
pub open spec fn any_match(patterns: Seq<Seq<char>>, path: Seq<char>) -> bool {
    first_match(patterns, path) is Some
}

/// `first_match_from` returns the least matching index from `from` on, and
/// `None` only when no pattern from there on matches.
pub proof fn lemma_first_match_from(patterns: Seq<Seq<char>>, path: Seq<char>, from: int)
    requires
        0 <= from,
    ensures
        match first_match_from(patterns, path, from) {
            Some(k) => from <= k < patterns.len() && pattern_matches(patterns[k], path)
                && forall|j: int| from <= j < k ==> !pattern_matches(#[trigger] patterns[j], path),
            None => forall|j: int|
                from <= j < patterns.len() ==> !pattern_matches(#[trigger] patterns[j], path),
        },
    decreases patterns.len() - from,
{
    if from < patterns.len() && !pattern_matches(patterns[from], path) {
        lemma_first_match_from(patterns, path, from + 1);
    }
}

/// Whether `pattern` is the root pattern `.`.
fn is_root_pattern(pattern: &str) -> (root: bool)
    ensures
        root == (pattern@ == seq!['.']),
{
    if pattern.unicode_len() == 1 {
        let root = pattern.get_char(0) == '.';
        assert(root ==> pattern@ =~= seq!['.']);
        root
    } else {
        false
    }
}

/// What is settled of a pattern and a path before any glob is tried:
/// `Some(hit)` for the root pattern and for strings that are not portable,
/// `None` where the glob decides.
pub fn settled_without_glob(pattern: &str, path: &str) -> (settled: Option<bool>)
    ensures
        settled == if pattern@ == seq!['.'] {
            Some(path@.len() == 0)
        } else if portable(pattern@) && portable(path@) {
            None
        } else {
            Some(false)
        },
        settled matches Some(hit) ==> hit == pattern_matches(pattern@, path@),
        settled is None ==> pattern_matches(pattern@, path@) == (glob_verdict(pattern@, path@)
            == Some(true)),
{
    if is_root_pattern(pattern) {
        Some(path.is_empty())
    } else if is_portable(pattern) && is_portable(path) {
        None
    } else {
        Some(false)
    }
}

/// Tests one pattern against one relative path.
pub fn is_match(pattern: &str, path: &str) -> (hit: bool)
    ensures
        hit == pattern_matches(pattern@, path@),
{
    match settled_without_glob(pattern, path) {
        Some(hit) => hit,
        None => match glob_try(pattern, path) {
            Some(hit) => hit,
            None => false,
        },
    }
}

/// Whether a pattern can match anything at all. A task whose patterns all
/// pass never loses a match to a misspelt glob.
pub fn is_valid_pattern(pattern: &str) -> (valid: bool)
    ensures
        valid == valid_pattern(pattern@),
{
    if is_root_pattern(pattern) {
        true
    } else if is_portable(pattern) {
        let empty = "";
        proof {
            reveal_strlit("");
            assert(empty@ =~= Seq::<char>::empty());
        }
        glob_try(pattern, empty).is_some()
    } else {
        false
    }
}

/// Finds the first pattern, in list order, that matches `path`, and returns
/// its index; `None` when no pattern matches. The answer depends on the two
/// texts alone.
pub fn find_match(path: &str, patterns: &Vec<String>) -> (found: Option<usize>)
    ensures
        found matches Some(k) ==> first_match(texts(patterns@), path@) == Some(k as int),
        found is None ==> first_match(texts(patterns@), path@) is None,
        found matches Some(k) ==> k < patterns.len() && pattern_matches(patterns[k as int]@, path@)
            && forall|j: int| 0 <= j < k ==> !pattern_matches(#[trigger] patterns[j]@, path@),
        found is None ==> forall|j: int|
            0 <= j < patterns.len() ==> !pattern_matches(#[trigger] patterns[j]@, path@),
{
    let mut i: usize = 0;
    while i < patterns.len()
        invariant
            i <= patterns.len(),
            first_match(texts(patterns@), path@) == first_match_from(
                texts(patterns@),
                path@,
                i as int,
            ),
            forall|j: int| 0 <= j < i ==> !pattern_matches(#[trigger] patterns[j]@, path@),
        decreases patterns.len() - i,
    {
        if is_match(patterns[i].as_str(), path) {
            return Some(i);
        }
        i += 1;
    }
    None
}

/// Whether any pattern of the list matches `path`.
pub fn matches_any(path: &str, patterns: &Vec<String>) -> (hit: bool)
    ensures
        hit == any_match(texts(patterns@), path@),
{
    find_match(path, patterns).is_some()
}

} // verus!
