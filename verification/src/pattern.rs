//! Deciding whether a relative path matches a single rule pattern.
//!
//! A pattern takes one of three forms, tried in this order:
//! - *directory*: the pattern ends with `/`; it matches a path that starts
//!   with the pattern, or that holds `/` followed by the pattern minus its
//!   trailing slash anywhere inside it;
//! - *wildcard*: the pattern holds `*`; the whole path must match, with each
//!   `*` standing for any run of characters and every other character
//!   standing for itself;
//! - *exact*: the path equals the pattern, or ends with `/` followed by the
//!   pattern.

use vstd::prelude::*;

verus! {

use crate::text::contains_seq;
use crate::text::contains_str;
use crate::text::ends_with_str;
use crate::text::eq_str;
use crate::text::starts_with_str;
use crate::text::str_concat;
use vstd::string::StrSliceExecFns;

/// Wildcard matching of `path` against `pat`, both taken from the given
/// offsets on: each `*` in the pattern stands for any run of characters,
/// every other character stands for itself, and the whole rest of the path
/// must be covered.
pub open spec fn glob_matches_from(path: Seq<char>, pat: Seq<char>, pi: int, qi: int) -> bool
    decreases pat.len() - qi, path.len() - pi,
{
    if qi >= pat.len() {
        pi >= path.len()
    } else if pat[qi] == '*' {
        glob_matches_from(path, pat, pi, qi + 1) || (pi < path.len() && glob_matches_from(
            path,
            pat,
            pi + 1,
            qi,
        ))
    } else {
        pi < path.len() && path[pi] == pat[qi] && glob_matches_from(path, pat, pi + 1, qi + 1)
    }
}

/// Anchored wildcard matching of the whole path against the whole pattern.
pub open spec fn glob_matches(path: Seq<char>, pat: Seq<char>) -> bool {
    glob_matches_from(path, pat, 0, 0)
}

fn glob_match_from(path: &Vec<char>, pat: &Vec<char>, pi: usize, qi: usize) -> (r: bool)
    requires
        pi <= path.len(),
        qi <= pat.len(),
    ensures
        r == glob_matches_from(path@, pat@, pi as int, qi as int),
    decreases pat.len() - qi, path.len() - pi,
{
    if qi == pat.len() {
        pi == path.len()
    } else if pat[qi] == '*' {
        if glob_match_from(path, pat, pi, qi + 1) {
            true
        } else if pi < path.len() {
            glob_match_from(path, pat, pi + 1, qi)
        } else {
            false
        }
    } else {
        pi < path.len() && path[pi] == pat[qi] && glob_match_from(path, pat, pi + 1, qi + 1)
    }
}

/// One rule pattern applied to one path: the three pattern forms described
/// at the top of this module, tried in order.
pub open spec fn spec_pattern_matches(path: Seq<char>, pat: Seq<char>) -> bool {
    if pat.len() > 0 && pat.last() == '/' {
        pat.is_prefix_of(path) || contains_seq(path, seq!['/'] + pat.drop_last())
    } else if pat.contains('*') {
        glob_matches(path, pat)
    } else {
        path == pat || (seq!['/'] + pat).is_suffix_of(path)
    }
}

/// Whether `path` matches the rule pattern `pattern`. Total: every pattern
/// string is given a meaning by one of the three forms.
pub fn pattern_matches(path: &str, pattern: &str) -> (r: bool)
    ensures
        r == spec_pattern_matches(path@, pattern@),
{
    proof {
        reveal_strlit("/");
        reveal_strlit("*");
    }
    let pn = pattern.unicode_len();
    if pn > 0 && pattern.get_char(pn - 1) == '/' {
        proof {
            assert(pattern@.last() == '/');
        }
        if starts_with_str(path, pattern) {
            return true;
        }
        let stem = pattern.substring_char(0, pn - 1);
        let with_slash = str_concat("/", stem);
        proof {
            assert(with_slash@ =~= seq!['/'] + pattern@.drop_last());
        }
        return contains_str(path, with_slash.as_str());
    }
    if contains_char(pattern, '*') {
        proof {
            assert(!(pattern@.len() > 0 && pattern@.last() == '/'));
        }
        let path_chars = crate::text::to_chars(path);
        let pat_chars = crate::text::to_chars(pattern);
        return glob_match_from(&path_chars, &pat_chars, 0, 0);
    }
    if eq_str(path, pattern) {
        return true;
    }
    let with_slash = str_concat("/", pattern);
    proof {
        assert(with_slash@ =~= seq!['/'] + pattern@);
    }
    ends_with_str(path, with_slash.as_str())
}

/// Wildcard-free pattern tails match by plain character comparison: from
/// `qi` on, the rest of the pattern matches the rest of the path exactly
/// when they have the same length and the same characters.
proof fn lemma_literal_tail(path: Seq<char>, pat: Seq<char>, pi: int, qi: int)
    requires
        0 <= pi <= path.len(),
        0 <= qi <= pat.len(),
        forall|j: int| qi <= j < pat.len() ==> pat[j] != '*',
    ensures
        glob_matches_from(path, pat, pi, qi) <==> (path.len() - pi == pat.len() - qi && forall|
            j: int,
        |
            0 <= j < pat.len() - qi ==> #[trigger] path[pi + j] == pat[qi + j]),
    decreases pat.len() - qi,
{
    if qi == pat.len() {
    } else {
        assert(pat[qi] != '*');
        if pi < path.len() && path[pi] == pat[qi] {
            lemma_literal_tail(path, pat, pi + 1, qi + 1);
            if glob_matches_from(path, pat, pi, qi) {
                assert(forall|j: int|
                    1 <= j < pat.len() - qi ==> #[trigger] path[pi + j] == pat[(qi + j) as int])
                    by {
                    assert(forall|j: int|
                        0 <= j < pat.len() - (qi + 1) ==> #[trigger] path[pi + 1 + j] == pat[qi + 1
                            + j]);
                    assert(forall|j: int|
                        1 <= j < pat.len() - qi ==> #[trigger] path[pi + j] == path[pi + 1 + (j
                            - 1)] && pat[(qi + j) as int] == pat[qi + 1 + (j - 1)]);
                }
            }
            if path.len() - pi == pat.len() - qi && forall|j: int|
                0 <= j < pat.len() - qi ==> #[trigger] path[pi + j] == pat[qi + j] {
                assert(forall|j: int|
                    0 <= j < pat.len() - (qi + 1) ==> #[trigger] path[pi + 1 + j] == path[pi + (j
                        + 1)] && pat[qi + 1 + j] == pat[(qi + (j + 1)) as int]);
                assert(glob_matches_from(path, pat, pi + 1, qi + 1));
            }
        } else {
            assert(!glob_matches_from(path, pat, pi, qi));
            if path.len() - pi == pat.len() - qi && forall|j: int|
                0 <= j < pat.len() - qi ==> #[trigger] path[pi + j] == pat[qi + j] {
                assert(path[pi + 0] == pat[qi + 0]);
                assert(false);
            }
        }
    }
}

/// A `*` at pattern offset `qi` matches some run of path characters: the
/// match succeeds exactly when the rest of the pattern matches from some
/// later point of the path on.
proof fn lemma_star_absorbs(path: Seq<char>, pat: Seq<char>, pi: int, qi: int)
    requires
        0 <= pi <= path.len(),
        0 <= qi < pat.len(),
        pat[qi] == '*',
    ensures
        glob_matches_from(path, pat, pi, qi) <==> exists|k: int|
            pi <= k <= path.len() && #[trigger] glob_matches_from(path, pat, k, qi + 1),
    decreases path.len() - pi,
{
    if glob_matches_from(path, pat, pi, qi) {
        if glob_matches_from(path, pat, pi, qi + 1) {
            assert(pi <= pi <= path.len() && glob_matches_from(path, pat, pi, qi + 1));
        } else {
            assert(pi < path.len() && glob_matches_from(path, pat, pi + 1, qi));
            lemma_star_absorbs(path, pat, pi + 1, qi);
        }
    }
    if exists|k: int| pi <= k <= path.len() && #[trigger] glob_matches_from(path, pat, k, qi + 1) {
        let k = choose|k: int|
            pi <= k <= path.len() && #[trigger] glob_matches_from(path, pat, k, qi + 1);
        if k == pi {
            assert(glob_matches_from(path, pat, pi, qi));
        } else {
            lemma_star_absorbs(path, pat, pi + 1, qi);
            assert(pi + 1 <= k <= path.len() && glob_matches_from(path, pat, k, qi + 1));
            assert(glob_matches_from(path, pat, pi + 1, qi));
        }
    }
}

/// A wildcard pattern of a single `*` followed by a wildcard-free tail
/// matches exactly the paths that end with that tail.
pub proof fn lemma_star_matches_suffix(path: Seq<char>, tail: Seq<char>)
    requires
        !tail.contains('*'),
    ensures
        glob_matches(path, seq!['*'] + tail) <==> tail.is_suffix_of(path),
{
    let pat = seq!['*'] + tail;
    assert(pat[0] == '*');
    assert(forall|j: int| 1 <= j < pat.len() ==> #[trigger] pat[j] == tail[j - 1]);
    lemma_star_absorbs(path, pat, 0, 0);
    assert forall|k: int| 0 <= k <= path.len() implies (glob_matches_from(path, pat, k, 1) <==> (
    path.len() - k == tail.len() && forall|j: int|
        0 <= j < tail.len() ==> path[k + j] == tail[j])) by {
        lemma_literal_tail(path, pat, k, 1);
        assert(forall|j: int| 0 <= j < pat.len() - 1 ==> #[trigger] pat[1 + j] == tail[j]);
    }
    if tail.is_suffix_of(path) {
        let k = path.len() - tail.len();
        assert(tail =~= path.subrange(k as int, path.len() as int));
        assert(forall|j: int|
            0 <= j < tail.len() ==> #[trigger] tail[j] == path.subrange(
                k as int,
                path.len() as int,
            )[j]);
        assert(glob_matches_from(path, pat, k as int, 1));
        assert(glob_matches(path, pat));
    }
    if glob_matches(path, pat) {
        let k = choose|k: int| 0 <= k <= path.len() && glob_matches_from(path, pat, k, 1);
        assert(path.len() - k == tail.len());
        assert(tail =~= path.subrange(path.len() - tail.len(), path.len() as int));
        assert(tail.is_suffix_of(path));
    }
}

/// The directory form in full: a pattern that ends with `/` matches exactly
/// the paths that start with it, or that hold `/` followed by the pattern
/// minus its trailing slash anywhere inside them.
pub proof fn lemma_directory_pattern(path: Seq<char>, pat: Seq<char>)
    requires
        pat.len() > 0,
        pat.last() == '/',
    ensures
        spec_pattern_matches(path, pat) <==> (pat.is_prefix_of(path) || contains_seq(
            path,
            seq!['/'] + pat.drop_last(),
        )),
{
}

/// The wildcard form in full, stated over whole pattern strings: a pattern
/// `*` followed by a wildcard-free tail that does not end with `/` matches
/// exactly the paths that end with that tail.
pub proof fn lemma_star_suffix_rule(path: Seq<char>, tail: Seq<char>)
    requires
        !tail.contains('*'),
        tail.len() == 0 || tail.last() != '/',
    ensures
        spec_pattern_matches(path, seq!['*'] + tail) <==> tail.is_suffix_of(path),
{
    let pat = seq!['*'] + tail;
    assert(pat.last() != '/');
    assert(pat.contains('*')) by {
        assert(pat[0] == '*');
    }
    lemma_star_matches_suffix(path, tail);
}

/// Does `s` hold the character `c` anywhere?
pub fn contains_char(s: &str, c: char) -> (r: bool)
    ensures
        r == s@.contains(c),
{
    let n = s.unicode_len();
    for i in 0..n
        invariant
            n == s@.len(),
            forall|j: int| 0 <= j < i ==> s@[j] != c,
    {
        if s.get_char(i) == c {
            return true;
        }
    }
    false
}

} // verus!
