//! The project's key/value metadata: a line-oriented `key=value` text.
//!
//! Loading turns the lines into an ordered pair list where a later line
//! wins over an earlier one with the same key. Rewriting the version code
//! replaces the first `versionCode=` line in place, keeps every other line
//! verbatim and in order, and adds the line at the end — keeping a final
//! newline where the text had one — when none exists.

use vstd::prelude::*;

verus! {

use crate::text::dec_rep;
use crate::text::is_line_split;
use crate::text::join_lines;
use crate::text::join_lines_exec;
use crate::text::split_lines;
use crate::text::u64_to_dec;
use vstd::string::StrSliceExecFns;
use vstd::string::StringExecFns;

/// Index of the first `=` in a line, `-1` when the line has none.
pub open spec fn first_eq(l: Seq<char>) -> int
    decreases l.len(),
{
    if l.len() == 0 {
        -1
    } else if l[0] == '=' {
        0
    } else {
        let r = first_eq(l.skip(1));
        if r < 0 {
            -1
        } else {
            r + 1
        }
    }
}

/// `first_eq` finds exactly the first `=`: its result is in range, sits on
/// an `=`, and nothing before it is one; `-1` comes only from a line
/// without `=`.
pub proof fn lemma_first_eq(l: Seq<char>)
    ensures
        first_eq(l) == -1 ==> forall|j: int| 0 <= j < l.len() ==> l[j] != '=',
        first_eq(l) >= 0 ==> 0 <= first_eq(l) < l.len() && l[first_eq(l)] == '=' && forall|j: int|
            0 <= j < first_eq(l) ==> l[j] != '=',
    decreases l.len(),
{
    if l.len() == 0 {
    } else if l[0] == '=' {
    } else {
        lemma_first_eq(l.skip(1));
        let r = first_eq(l.skip(1));
        if r >= 0 {
            assert(l.skip(1)[r] == l[r + 1]);
            assert forall|j: int| 0 <= j < r + 1 implies l[j] != '=' by {
                if j > 0 {
                    assert(l.skip(1)[j - 1] == l[j]);
                }
            }
        } else {
            assert forall|j: int| 0 <= j < l.len() implies l[j] != '=' by {
                if j > 0 {
                    assert(l.skip(1)[j - 1] == l[j]);
                }
            }
        }
    }
}

/// What one line adds to the pair list: its key and value when it has an
/// `=`, nothing otherwise.
pub open spec fn pair_contrib(l: Seq<char>) -> Seq<(Seq<char>, Seq<char>)> {
    if first_eq(l) >= 0 {
        seq![(l.take(first_eq(l)), l.skip(first_eq(l) + 1))]
    } else {
        Seq::empty()
    }
}

/// The key/value pairs of a sequence of lines, in line order.
pub open spec fn pairs_of(lines: Seq<Seq<char>>) -> Seq<(Seq<char>, Seq<char>)>
    decreases lines.len(),
{
    if lines.len() == 0 {
        Seq::empty()
    } else {
        pairs_of(lines.drop_last()) + pair_contrib(lines.last())
    }
}

/// The value of `key` in a pair list, the last occurrence winning.
pub open spec fn lookup_spec(ps: Seq<(Seq<char>, Seq<char>)>, key: Seq<char>) -> Option<Seq<char>>
    decreases ps.len(),
{
    if ps.len() == 0 {
        None
    } else if ps.last().0 == key {
        Some(ps.last().1)
    } else {
        lookup_spec(ps.drop_last(), key)
    }
}

/// The metadata mapping of one build: loaded once, read-only afterwards.
pub struct Metadata {
    pub pairs: Vec<(String, String)>,
}

impl Metadata {
    /// Read the pair list out of the metadata lines.
    pub fn load(lines: &Vec<String>) -> (r: Metadata)
        ensures
            r.pairs.deep_view() == pairs_of(lines.deep_view()),
    {
        let ghost dv = lines.deep_view();
        let mut pairs: Vec<(String, String)> = Vec::new();
        let n = lines.len();
        let mut i: usize = 0;
        while i < n
            invariant
                n == lines.len(),
                i <= n,
                dv == lines.deep_view(),
                pairs.deep_view() =~= pairs_of(dv.take(i as int)),
            decreases n - i,
        {
            let line = lines[i].as_str();
            let ghost lseq = dv[i as int];
            let ghost pre = pairs.deep_view();
            proof {
                lemma_first_eq(lseq);
            }
            match crate::text::find_char(line, '=') {
                Some(p) => {
                    let ln = line.unicode_len();
                    let key = line.substring_char(0, p);
                    let value = line.substring_char(p + 1, ln);
                    pairs.push((String::from_str(key), String::from_str(value)));
                    proof {
                        assert(p as int == first_eq(lseq));
                        assert(pairs.deep_view() =~= pre.push(
                            (lseq.take(first_eq(lseq)), lseq.skip(first_eq(lseq) + 1)),
                        ));
                    }
                },
                None => {
                    proof {
                        assert(first_eq(lseq) == -1) by {
                            if first_eq(lseq) >= 0 {
                                assert(lseq[first_eq(lseq)] == '=');
                            }
                        }
                    }
                },
            }
            proof {
                let ghost tk = dv.take(i + 1);
                assert(tk.drop_last() =~= dv.take(i as int));
                assert(tk.last() == lseq);
                assert(pairs.deep_view() =~= pairs_of(dv.take(i + 1)));
            }
            i = i + 1;
        }
        proof {
            assert(dv.take(n as int) =~= dv);
        }
        Metadata { pairs }
    }

    /// The value stored under `key`, the last occurrence winning.
    pub fn get(&self, key: &str) -> (r: Option<&String>)
        ensures
            match r {
                Some(v) => lookup_spec(self.pairs.deep_view(), key@) == Some(v@),
                None => lookup_spec(self.pairs.deep_view(), key@) is None,
            },
    {
        let ghost ps = self.pairs.deep_view();
        let n = self.pairs.len();
        proof {
            assert(ps.take(n as int) =~= ps);
        }
        let mut i: usize = n;
        while i > 0
            invariant
                n == self.pairs.len(),
                i <= n,
                ps == self.pairs.deep_view(),
                lookup_spec(ps, key@) == lookup_spec(ps.take(i as int), key@),
            decreases i,
        {
            i = i - 1;
            let ghost tk = ps.take(i + 1);
            proof {
                assert(tk.drop_last() =~= ps.take(i as int));
                assert(tk.last() == ps[i as int]);
            }
            if crate::text::eq_str(self.pairs[i].0.as_str(), key) {
                proof {
                    assert(lookup_spec(tk, key@) == Some(ps[i as int].1));
                }
                return Some(&self.pairs[i].1);
            }
        }
        proof {
            assert(ps.take(0) =~= Seq::<(Seq<char>, Seq<char>)>::empty());
        }
        None
    }
}

/// The line that stores a freshly stamped version code.
pub open spec fn stamped_line(code: nat) -> Seq<char> {
    "versionCode="@ + dec_rep(code)
}

/// Is this a line that assigns the `versionCode` key?
pub open spec fn is_version_code_line(l: Seq<char>) -> bool {
    ("versionCode="@).is_prefix_of(l)
}

/// Index of the first `versionCode=` line, `-1` when none exists.
pub open spec fn first_version_code_line(lines: Seq<Seq<char>>) -> int
    decreases lines.len(),
{
    if lines.len() == 0 {
        -1
    } else if is_version_code_line(lines[0]) {
        0
    } else {
        let r = first_version_code_line(lines.skip(1));
        if r < 0 {
            -1
        } else {
            r + 1
        }
    }
}

/// As for `first_eq`: the result is the least index of a `versionCode=`
/// line, or `-1` when there is none.
pub proof fn lemma_first_version_code_line(lines: Seq<Seq<char>>)
    ensures
        first_version_code_line(lines) == -1 ==> forall|j: int|
            0 <= j < lines.len() ==> !is_version_code_line(lines[j]),
        first_version_code_line(lines) >= 0 ==> 0 <= first_version_code_line(lines) < lines.len()
            && is_version_code_line(lines[first_version_code_line(lines)]) && forall|j: int|
            0 <= j < first_version_code_line(lines) ==> !is_version_code_line(lines[j]),
    decreases lines.len(),
{
    if lines.len() == 0 {
    } else if is_version_code_line(lines[0]) {
    } else {
        lemma_first_version_code_line(lines.skip(1));
        let r = first_version_code_line(lines.skip(1));
        if r >= 0 {
            assert(lines.skip(1)[r] == lines[r + 1]);
            assert forall|j: int| 0 <= j < r + 1 implies !is_version_code_line(lines[j]) by {
                if j > 0 {
                    assert(lines.skip(1)[j - 1] == lines[j]);
                }
            }
        } else {
            assert forall|j: int| 0 <= j < lines.len() implies !is_version_code_line(lines[j]) by {
                if j > 0 {
                    assert(lines.skip(1)[j - 1] == lines[j]);
                }
            }
        }
    }
}

/// The stamped metadata lines: the first `versionCode=` line replaced in
/// place, every other line kept verbatim in its position. When no line
/// assigns the key, the new line goes at the end — before a final empty
/// line, so that a newline-ended text keeps its terminator.
pub open spec fn stamped_lines_spec(lines: Seq<Seq<char>>, code: nat) -> Seq<Seq<char>> {
    let f = first_version_code_line(lines);
    if f >= 0 {
        lines.update(f, stamped_line(code))
    } else if lines.len() > 0 && lines.last().len() == 0 {
        lines.drop_last().push(stamped_line(code)).push(Seq::empty())
    } else {
        lines.push(stamped_line(code))
    }
}

/// Rewrite the metadata lines with a new version code: the first
/// `versionCode=` line is replaced, every other line keeps its exact text
/// and position, and the line is added at the end — before a final empty
/// line, if one is there — when no line assigns the key.
pub fn stamp_lines(lines: &Vec<String>, code: u64) -> (r: Vec<String>)
    ensures
        r.deep_view() =~= stamped_lines_spec(lines.deep_view(), code as nat),
{
    let ghost dv = lines.deep_view();
    let mut fresh = String::from_str("versionCode=");
    let num = u64_to_dec(code);
    fresh.append(num.as_str());
    let mut r: Vec<String> = Vec::new();
    let n = lines.len();
    let mut i: usize = 0;
    let mut replaced = false;
    while i < n
        invariant
            n == lines.len(),
            i <= n,
            dv == lines.deep_view(),
            fresh@ == stamped_line(code as nat),
            r.deep_view().len() == i as int,
            ({
                let f = first_version_code_line(dv);
                &&& replaced <==> (0 <= f < i as int)
                &&& forall|j: int| 0 <= j < i as int && j != f ==> r.deep_view()[j] == dv[j]
                &&& 0 <= f < i as int ==> r.deep_view()[f] == stamped_line(code as nat)
            }),
        decreases n - i,
    {
        let ghost pre = r.deep_view();
        let ghost f = first_version_code_line(dv);
        let line = lines[i].as_str();
        if !replaced && crate::text::starts_with_str(line, "versionCode=") {
            r.push(fresh.clone());
            replaced = true;
            proof {
                lemma_first_version_code_line(dv);
                assert(is_version_code_line(dv[i as int]));
                assert(f == i as int);
                assert(r.deep_view() =~= pre.push(stamped_line(code as nat)));
            }
        } else {
            r.push(lines[i].clone());
            proof {
                lemma_first_version_code_line(dv);
                if !replaced {
                    assert(f != i as int);
                }
                assert(r.deep_view() =~= pre.push(dv[i as int]));
            }
        }
        i = i + 1;
    }
    if !replaced {
        proof {
            lemma_first_version_code_line(dv);
            assert(first_version_code_line(dv) == -1) by {
                if first_version_code_line(dv) >= 0 {
                    assert(is_version_code_line(dv[first_version_code_line(dv)]));
                }
            }
        }
        let ghost pre = r.deep_view();
        proof {
            assert(pre =~= dv) by {
                assert(forall|j: int| 0 <= j < dv.len() ==> pre[j] == dv[j]);
            }
        }
        let rn = r.len();
        if rn > 0 && lines[rn - 1].as_str().unicode_len() == 0 {
            let _dropped = r.pop();
            r.push(fresh);
            r.push(String::new());
            proof {
                assert(dv.last().len() == 0);
                assert(r.deep_view() =~= dv.drop_last().push(stamped_line(code as nat)).push(
                    Seq::empty(),
                ));
            }
        } else {
            r.push(fresh);
            proof {
                if dv.len() > 0 {
                    assert(dv.last().len() != 0);
                }
                assert(r.deep_view() =~= dv.push(stamped_line(code as nat)));
            }
        }
    } else {
        proof {
            assert(r.deep_view() =~= dv.update(
                first_version_code_line(dv),
                stamped_line(code as nat),
            ));
        }
    }
    r
}

/// Rewrite a whole metadata text with a new version code: the text is cut
/// at its newlines, the lines are stamped, and the result is joined back,
/// so a text ended by a newline keeps that ending.
pub fn stamp_content(content: &str, code: u64) -> (r: String)
    ensures
        exists|lines: Seq<Seq<char>>|
            #[trigger] is_line_split(content@, lines) && r@ == join_lines(
                stamped_lines_spec(lines, code as nat),
            ),
{
    let lines = split_lines(content);
    let stamped = stamp_lines(&lines, code);
    let r = join_lines_exec(&stamped);
    proof {
        assert(is_line_split(content@, lines.deep_view()) && r@ == join_lines(
            stamped_lines_spec(lines.deep_view(), code as nat),
        ));
    }
    r
}

/// Stamp a metadata text with the version code of the present moment:
/// the new code and the rewritten text, or `None` only when the wall
/// clock's year falls outside four digits.
pub fn bump_content(content: &str) -> (r: Option<(u64, String)>)
    ensures
        match r {
            Some(p) => (exists|y: int, m: int, d: int, h: int|
                #[trigger] crate::version::valid_clock_parts(y, m, d, h) && p.0
                    == crate::version::version_code_of(y, m, d, h)) && exists|
                lines: Seq<Seq<char>>,
            |
                #[trigger] is_line_split(content@, lines) && p.1@ == join_lines(
                    stamped_lines_spec(lines, p.0 as nat),
                ),
            None => true,
        },
{
    match crate::version::current_version_code() {
        Some(code) => {
            let out = stamp_content(content, code);
            Some((code, out))
        },
        None => None,
    }
}

/// Write a fresh project's metadata text: one `key=value` line for each
/// of the seven starting keys, each line ended by a newline.
pub fn render_module_prop(
    id: &str,
    name: &str,
    version: &str,
    version_code: u64,
    author: &str,
    description: &str,
    update_json: &str,
) -> (r: String)
    ensures
        r@ == "id="@ + id@ + "\nname="@ + name@ + "\nversion="@ + version@ + "\nversionCode="@
            + dec_rep(version_code as nat) + "\nauthor="@ + author@ + "\ndescription="@
            + description@ + "\nupdateJson="@ + update_json@ + "\n"@,
{
    let code = u64_to_dec(version_code);
    let mut s = String::from_str("id=");
    s.append(id);
    s.append("\nname=");
    s.append(name);
    s.append("\nversion=");
    s.append(version);
    s.append("\nversionCode=");
    s.append(code.as_str());
    s.append("\nauthor=");
    s.append(author);
    s.append("\ndescription=");
    s.append(description);
    s.append("\nupdateJson=");
    s.append(update_json);
    s.append("\n");
    s
}

/// A letter of the Latin alphabet.
pub open spec fn is_alpha(c: char) -> bool {
    ('a' <= c && c <= 'z') || ('A' <= c && c <= 'Z')
}

/// A character allowed after the first position of a module id.
pub open spec fn is_id_char(c: char) -> bool {
    is_alpha(c) || ('0' <= c && c <= '9') || c == '.' || c == '_' || c == '-'
}

/// A well-formed module id: a letter followed by at least one more letter,
/// digit, dot, underscore or hyphen.
pub open spec fn valid_module_id(s: Seq<char>) -> bool {
    s.len() >= 2 && is_alpha(s[0]) && forall|i: int| 1 <= i < s.len() ==> is_id_char(#[trigger] s[i])
}

/// Check a module id against the id grammar.
pub fn is_valid_module_id(s: &str) -> (r: bool)
    ensures
        r == valid_module_id(s@),
{
    let n = s.unicode_len();
    if n < 2 {
        return false;
    }
    let c0 = s.get_char(0);
    if !(('a' <= c0 && c0 <= 'z') || ('A' <= c0 && c0 <= 'Z')) {
        return false;
    }
    let mut i: usize = 1;
    while i < n
        invariant
            n == s@.len(),
            1 <= i <= n,
            is_alpha(s@[0]),
            n >= 2,
            forall|j: int| 1 <= j < i ==> is_id_char(#[trigger] s@[j]),
        decreases n - i,
    {
        let c = s.get_char(i);
        if !(('a' <= c && c <= 'z') || ('A' <= c && c <= 'Z') || ('0' <= c && c <= '9') || c == '.'
            || c == '_' || c == '-') {
            return false;
        }
        i = i + 1;
    }
    true
}

} // verus!
