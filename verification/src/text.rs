//! Shared text helpers: substring search, trimming, joining, and decimal
//! rendering, specified over `Seq<char>` views.

use vstd::prelude::*;

verus! {

use vstd::string::StrSliceExecFns;
use vstd::string::StringExecFns;

/// `needle` occurs in `hay` starting at index `at`.
pub open spec fn occurs_at(hay: Seq<char>, needle: Seq<char>, at: int) -> bool {
    0 <= at && at + needle.len() <= hay.len() && needle =~= hay.subrange(
        at,
        at + needle.len() as int,
    )
}

/// `needle` occurs somewhere in `hay`.
pub open spec fn contains_seq(hay: Seq<char>, needle: Seq<char>) -> bool {
    exists|at: int| occurs_at(hay, needle, at)
}

/// Character equality of two strings.
pub fn eq_str(a: &str, b: &str) -> (r: bool)
    ensures
        r == (a@ == b@),
{
    let an = a.unicode_len();
    let bn = b.unicode_len();
    if an != bn {
        return false;
    }
    for i in 0..an
        invariant
            an == a@.len(),
            an == b@.len(),
            forall|j: int| 0 <= j < i ==> a@[j] == b@[j],
    {
        if a.get_char(i) != b.get_char(i) {
            return false;
        }
    }
    proof {
        assert(a@ =~= b@);
    }
    true
}

/// Prefix test: does `s` start with `p`?
pub fn starts_with_str(s: &str, p: &str) -> (r: bool)
    ensures
        r == p@.is_prefix_of(s@),
{
    let sn = s.unicode_len();
    let pn = p.unicode_len();
    if pn > sn {
        return false;
    }
    for i in 0..pn
        invariant
            pn == p@.len(),
            sn == s@.len(),
            pn <= sn,
            forall|j: int| 0 <= j < i ==> s@[j] == p@[j],
    {
        if s.get_char(i) != p.get_char(i) {
            return false;
        }
    }
    proof {
        assert(p@ =~= s@.subrange(0, p@.len() as int));
    }
    true
}

/// Suffix test: does `s` end with `p`?
pub fn ends_with_str(s: &str, p: &str) -> (r: bool)
    ensures
        r == p@.is_suffix_of(s@),
{
    let sn = s.unicode_len();
    let pn = p.unicode_len();
    if pn > sn {
        return false;
    }
    let off = sn - pn;
    for i in 0..pn
        invariant
            pn == p@.len(),
            sn == s@.len(),
            pn <= sn,
            off == sn - pn,
            forall|j: int| 0 <= j < i ==> s@[off + j] == p@[j],
    {
        if s.get_char(off + i) != p.get_char(i) {
            return false;
        }
    }
    proof {
        assert(p@ =~= s@.subrange(s@.len() - p@.len(), s@.len() as int));
    }
    true
}

/// Does `needle` occur in `hay` at offset `at`?
pub fn occurs_at_exec(hay: &str, needle: &str, at: usize) -> (r: bool)
    requires
        at + needle@.len() <= hay@.len(),
    ensures
        r == occurs_at(hay@, needle@, at as int),
{
    let hn = hay.unicode_len();
    let nn = needle.unicode_len();
    for i in 0..nn
        invariant
            hn == hay@.len(),
            nn == needle@.len(),
            at + nn <= hn,
            forall|j: int| 0 <= j < i ==> hay@[at + j] == needle@[j],
    {
        if hay.get_char(at + i) != needle.get_char(i) {
            return false;
        }
    }
    proof {
        assert(needle@ =~= hay@.subrange(at as int, at + needle@.len() as int));
    }
    true
}

/// Substring search, reported as a yes/no answer.
pub fn contains_str(hay: &str, needle: &str) -> (r: bool)
    ensures
        r == contains_seq(hay@, needle@),
{
    let hn = hay.unicode_len();
    let nn = needle.unicode_len();
    if nn > hn {
        proof {
            assert(forall|at: int| !occurs_at(hay@, needle@, at));
        }
        return false;
    }
    if nn == 0 {
        proof {
            assert(occurs_at(hay@, needle@, 0));
        }
        return true;
    }
    let last = hn - nn;
    for at in 0..last + 1
        invariant
            hn == hay@.len(),
            nn == needle@.len(),
            nn <= hn,
            last == hn - nn,
            forall|j: int| 0 <= j < at ==> !occurs_at(hay@, needle@, j),
    {
        if occurs_at_exec(hay, needle, at) {
            return true;
        }
    }
    proof {
        assert(forall|at: int| at > last ==> !occurs_at(hay@, needle@, at));
    }
    false
}

/// Index of the first occurrence of `c` in `s`, if any.
pub fn find_char(s: &str, c: char) -> (r: Option<usize>)
    ensures
        match r {
            Some(i) => i < s@.len() && s@[i as int] == c && forall|j: int|
                0 <= j < i ==> s@[j] != c,
            None => forall|j: int| 0 <= j < s@.len() ==> s@[j] != c,
        },
{
    let n = s.unicode_len();
    for i in 0..n
        invariant
            n == s@.len(),
            forall|j: int| 0 <= j < i ==> s@[j] != c,
    {
        if s.get_char(i) == c {
            return Some(i);
        }
    }
    None
}

/// The characters of `s` as a vector.
pub fn to_chars(s: &str) -> (v: Vec<char>)
    ensures
        v@ == s@,
{
    let n = s.unicode_len();
    let mut v: Vec<char> = Vec::new();
    for i in 0..n
        invariant
            n == s@.len(),
            v@ =~= s@.subrange(0, i as int),
    {
        v.push(s.get_char(i));
    }
    proof {
        assert(v@ =~= s@);
    }
    v
}

/// `a`, a separating slash, and `b`, as one path string.
pub fn path_join(a: &str, b: &str) -> (r: String)
    ensures
        r@ == a@ + seq!['/'] + b@,
{
    proof {
        reveal_strlit("/");
    }
    let r = String::from_str(a).concat("/").concat(b);
    proof {
        assert(r@ =~= a@ + seq!['/'] + b@);
    }
    r
}

/// Plain concatenation of two strings.
pub fn str_concat(a: &str, b: &str) -> (r: String)
    ensures
        r@ == a@ + b@,
{
    String::from_str(a).concat(b)
}

/// The blank characters that trimming removes from rule and metadata
/// lines: the characters of Unicode's White_Space property.
pub open spec fn is_space_char(c: char) -> bool {
    ||| ('\u{0009}' <= c && c <= '\u{000D}')
    ||| c == ' '
    ||| c == '\u{0085}'
    ||| c == '\u{00A0}'
    ||| c == '\u{1680}'
    ||| ('\u{2000}' <= c && c <= '\u{200A}')
    ||| c == '\u{2028}'
    ||| c == '\u{2029}'
    ||| c == '\u{202F}'
    ||| c == '\u{205F}'
    ||| c == '\u{3000}'
}

/// `s` without its leading blank characters.
pub open spec fn trim_start_spec(s: Seq<char>) -> Seq<char>
    decreases s.len(),
{
    if s.len() > 0 && is_space_char(s[0]) {
        trim_start_spec(s.skip(1))
    } else {
        s
    }
}

/// `s` without its trailing blank characters.
pub open spec fn trim_end_spec(s: Seq<char>) -> Seq<char>
    decreases s.len(),
{
    if s.len() > 0 && is_space_char(s.last()) {
        trim_end_spec(s.drop_last())
    } else {
        s
    }
}

/// `s` without leading and trailing blank characters.
pub open spec fn trim_spec(s: Seq<char>) -> Seq<char> {
    trim_end_spec(trim_start_spec(s))
}

proof fn lemma_trim_start_skip(s: Seq<char>, i: int)
    requires
        0 <= i <= s.len(),
        forall|j: int| 0 <= j < i ==> is_space_char(s[j]),
        i == s.len() || !is_space_char(s[i]),
    ensures
        trim_start_spec(s) == s.skip(i),
    decreases i,
{
    if i == 0 {
        assert(s.skip(0) =~= s);
    } else {
        lemma_trim_start_skip(s.skip(1), i - 1);
        assert(s.skip(1).skip(i - 1) =~= s.skip(i));
    }
}

proof fn lemma_trim_end_take(s: Seq<char>, k: int)
    requires
        0 <= k <= s.len(),
        forall|j: int| k <= j < s.len() ==> is_space_char(s[j]),
        k == 0 || !is_space_char(s[k - 1]),
    ensures
        trim_end_spec(s) == s.take(k),
    decreases s.len() - k,
{
    if k == s.len() {
        assert(s.take(k) =~= s);
    } else {
        lemma_trim_end_take(s.drop_last(), k);
        assert(s.drop_last().take(k) =~= s.take(k));
    }
}

/// `s` with leading and trailing blanks removed.
pub fn trim_str(s: &str) -> (r: String)
    ensures
        r@ == trim_spec(s@),
{
    let n = s.unicode_len();
    let mut i: usize = 0;
    while i < n && is_space_exec(s.get_char(i))
        invariant
            n == s@.len(),
            i <= n,
            forall|j: int| 0 <= j < i ==> is_space_char(s@[j]),
        decreases n - i,
    {
        i = i + 1;
    }
    let mut k: usize = n;
    while k > i && is_space_exec(s.get_char(k - 1))
        invariant
            n == s@.len(),
            i <= k <= n,
            forall|j: int| k <= j < n ==> is_space_char(s@[j]),
        decreases k,
    {
        k = k - 1;
    }
    let sub = s.substring_char(i, k);
    proof {
        lemma_trim_start_skip(s@, i as int);
        lemma_trim_end_take(s@.skip(i as int), k - i);
        assert(s@.skip(i as int).take(k - i) =~= s@.subrange(i as int, k as int));
    }
    String::from_str(sub)
}

/// Executable form of `is_space_char`.
pub fn is_space_exec(c: char) -> (r: bool)
    ensures
        r == is_space_char(c),
{
    ('\u{0009}' <= c && c <= '\u{000D}') || c == ' ' || c == '\u{0085}' || c == '\u{00A0}' || c
        == '\u{1680}' || ('\u{2000}' <= c && c <= '\u{200A}') || c == '\u{2028}' || c
        == '\u{2029}' || c == '\u{202F}' || c == '\u{205F}' || c == '\u{3000}'
}

/// The character that writes a decimal digit.
pub open spec fn digit_char(d: nat) -> char {
    if d == 0 {
        '0'
    } else if d == 1 {
        '1'
    } else if d == 2 {
        '2'
    } else if d == 3 {
        '3'
    } else if d == 4 {
        '4'
    } else if d == 5 {
        '5'
    } else if d == 6 {
        '6'
    } else if d == 7 {
        '7'
    } else if d == 8 {
        '8'
    } else {
        '9'
    }
}

/// The decimal numeral of `n`, most significant digit first, no leading zeros
/// (a single `0` for zero itself).
pub open spec fn dec_rep(n: nat) -> Seq<char>
    decreases n,
{
    if n < 10 {
        seq![digit_char(n)]
    } else {
        dec_rep(n / 10) + seq![digit_char(n % 10)]
    }
}

fn digit_str(d: u64) -> (r: String)
    requires
        d < 10,
    ensures
        r@ =~= seq![digit_char(d as nat)],
{
    proof {
        reveal_strlit("0");
        reveal_strlit("1");
        reveal_strlit("2");
        reveal_strlit("3");
        reveal_strlit("4");
        reveal_strlit("5");
        reveal_strlit("6");
        reveal_strlit("7");
        reveal_strlit("8");
        reveal_strlit("9");
    }
    if d == 0 {
        String::from_str("0")
    } else if d == 1 {
        String::from_str("1")
    } else if d == 2 {
        String::from_str("2")
    } else if d == 3 {
        String::from_str("3")
    } else if d == 4 {
        String::from_str("4")
    } else if d == 5 {
        String::from_str("5")
    } else if d == 6 {
        String::from_str("6")
    } else if d == 7 {
        String::from_str("7")
    } else if d == 8 {
        String::from_str("8")
    } else {
        String::from_str("9")
    }
}

/// `n` written as a decimal string.
pub fn u64_to_dec(n: u64) -> (r: String)
    ensures
        r@ == dec_rep(n as nat),
    decreases n,
{
    if n < 10 {
        digit_str(n)
    } else {
        let mut s = u64_to_dec(n / 10);
        let dig = digit_str(n % 10);
        s.append(dig.as_str());
        s
    }
}

/// The lines joined back into one text, a newline between each two.
pub open spec fn join_lines(ls: Seq<Seq<char>>) -> Seq<char>
    decreases ls.len(),
{
    if ls.len() == 0 {
        Seq::empty()
    } else if ls.len() == 1 {
        ls[0]
    } else {
        join_lines(ls.drop_last()) + seq!['\n'] + ls.last()
    }
}

/// Splitting a text at every newline: the unique cut whose pieces are
/// newline-free and joined by `join_lines` give the text back.
pub open spec fn is_line_split(s: Seq<char>, ls: Seq<Seq<char>>) -> bool {
    &&& join_lines(ls) == s
    &&& ls.len() >= 1
    &&& forall|i: int| 0 <= i < ls.len() ==> !(#[trigger] ls[i]).contains('\n')
}

/// The text cut at every newline.
pub fn split_lines(s: &str) -> (r: Vec<String>)
    ensures
        is_line_split(s@, r.deep_view()),
{
    let n = s.unicode_len();
    let mut r: Vec<String> = Vec::new();
    let mut start: usize = 0;
    let mut i: usize = 0;
    while i < n
        invariant
            n == s@.len(),
            start <= i <= n,
            forall|j: int| start <= j < i ==> s@[j] != '\n',
            forall|k: int| 0 <= k < r.deep_view().len() ==> !(#[trigger] r.deep_view()[
                k
            ]).contains('\n'),
            join_lines(r.deep_view().push(s@.subrange(start as int, i as int))) =~= s@.subrange(
                0,
                i as int,
            ),
        decreases n - i,
    {
        if s.get_char(i) == '\n' {
            let ghost old_r = r.deep_view();
            let ghost piece_seq = s@.subrange(start as int, i as int);
            let piece = s.substring_char(start, i);
            r.push(String::from_str(piece));
            proof {
                assert(r.deep_view() =~= old_r.push(piece_seq));
                assert(!piece_seq.contains('\n')) by {
                    assert(forall|idx: int|
                        0 <= idx < piece_seq.len() ==> #[trigger] piece_seq[idx] == s@[start + idx]
                            && s@[start + idx] != '\n');
                }
                assert(join_lines(r.deep_view()) == s@.subrange(0, i as int));
                lemma_join_snoc(r.deep_view(), s@.subrange(i + 1, i + 1));
                assert(join_lines(r.deep_view().push(s@.subrange(i + 1, i + 1))) =~= s@.subrange(
                    0,
                    i + 1,
                ));
            }
            start = i + 1;
        } else {
            proof {
                let ghost old_piece = s@.subrange(start as int, i as int);
                let ghost new_piece = s@.subrange(start as int, i + 1);
                assert(new_piece =~= old_piece.push(s@[i as int]));
                lemma_join_push_char(r.deep_view(), old_piece, s@[i as int]);
            }
        }
        i = i + 1;
    }
    let ghost old_r = r.deep_view();
    let ghost piece_seq = s@.subrange(start as int, n as int);
    let piece = s.substring_char(start, n);
    r.push(String::from_str(piece));
    proof {
        assert(r.deep_view() =~= old_r.push(piece_seq));
        assert(!piece_seq.contains('\n')) by {
            assert(forall|idx: int|
                0 <= idx < piece_seq.len() ==> #[trigger] piece_seq[idx] == s@[start + idx] && s@[
                    start + idx
                ] != '\n');
        }
        assert(join_lines(r.deep_view()) == s@.subrange(0, n as int));
        assert(s@.subrange(0, n as int) =~= s@);
    }
    r
}

/// Unfolding `join_lines` at a final pushed line.
proof fn lemma_join_snoc(ls: Seq<Seq<char>>, x: Seq<char>)
    ensures
        join_lines(ls.push(x)) == if ls.len() == 0 {
            x
        } else {
            join_lines(ls) + seq!['\n'] + x
        },
{
    if ls.len() == 0 {
        assert(join_lines(ls.push(x)) == ls.push(x)[0]);
        assert(ls.push(x)[0] =~= x);
    } else {
        assert(ls.push(x).drop_last() =~= ls);
        assert(ls.push(x).last() =~= x);
    }
}

/// Extending the last line by one character extends the joined text by it.
proof fn lemma_join_push_char(ls: Seq<Seq<char>>, piece: Seq<char>, c: char)
    ensures
        join_lines(ls.push(piece.push(c))) =~= join_lines(ls.push(piece)) + seq![c],
{
    lemma_join_snoc(ls, piece);
    lemma_join_snoc(ls, piece.push(c));
    if ls.len() == 0 {
        assert(piece.push(c) =~= piece + seq![c]);
    } else {
        assert(join_lines(ls) + seq!['\n'] + piece.push(c) =~= (join_lines(ls) + seq!['\n']
            + piece) + seq![c]);
    }
}

/// Cutting a text at its newlines is unambiguous: two line splits of the
/// same text hold the same lines.
pub proof fn lemma_line_split_unique(s: Seq<char>, a: Seq<Seq<char>>, b: Seq<Seq<char>>)
    requires
        is_line_split(s, a),
        is_line_split(s, b),
    ensures
        a =~= b,
    decreases a.len() + b.len(),
{
    if a.len() == 1 && b.len() == 1 {
        assert(a[0] == s);
        assert(b[0] == s);
    } else if a.len() == 1 {
        let jb = join_lines(b.drop_last());
        assert(s == jb + seq!['\n'] + b.last());
        assert(s[jb.len() as int] == '\n');
        assert(a[0] == s);
        assert(a[0].contains('\n'));
    } else if b.len() == 1 {
        let ja = join_lines(a.drop_last());
        assert(s == ja + seq!['\n'] + a.last());
        assert(s[ja.len() as int] == '\n');
        assert(b[0] == s);
        assert(b[0].contains('\n'));
    } else {
        let ja = join_lines(a.drop_last());
        let jb = join_lines(b.drop_last());
        let la = a.last().len() as int;
        let lb = b.last().len() as int;
        assert(s == ja + seq!['\n'] + a.last());
        assert(s == jb + seq!['\n'] + b.last());
        assert(s.len() == ja.len() + 1 + la);
        assert(s.len() == jb.len() + 1 + lb);
        if la < lb {
            assert(s[ja.len() as int] == '\n');
            assert(b.last()[ja.len() - jb.len() - 1] == '\n');
            assert(b.last().contains('\n'));
            assert(false);
        }
        if lb < la {
            assert(s[jb.len() as int] == '\n');
            assert(a.last()[jb.len() - ja.len() - 1] == '\n');
            assert(a.last().contains('\n'));
            assert(false);
        }
        assert(la == lb);
        assert(ja.len() == jb.len());
        assert(a.last() =~= b.last()) by {
            assert(forall|k: int|
                0 <= k < la ==> a.last()[k] == s[ja.len() + 1 + k] && b.last()[k] == s[ja.len() + 1
                    + k]);
        }
        assert(ja =~= jb) by {
            assert(forall|k: int|
                0 <= k < ja.len() ==> ja[k] == s[k] && jb[k] == s[k]);
        }
        assert(forall|i: int|
            0 <= i < a.drop_last().len() ==> !(#[trigger] a.drop_last()[i]).contains('\n'));
        assert(forall|i: int|
            0 <= i < b.drop_last().len() ==> !(#[trigger] b.drop_last()[i]).contains('\n'));
        assert(is_line_split(ja, a.drop_last()));
        assert(is_line_split(ja, b.drop_last()));
        lemma_line_split_unique(ja, a.drop_last(), b.drop_last());
        assert forall|i: int| 0 <= i < a.len() implies a[i] == b[i] by {
            if i < a.len() - 1 {
                assert(a[i] == a.drop_last()[i]);
                assert(b[i] == b.drop_last()[i]);
            } else {
                assert(a[i] == a.last());
                assert(b[i] == b.last());
            }
        }
    }
}

/// The lines joined back into one text.
pub fn join_lines_exec(lines: &Vec<String>) -> (r: String)
    ensures
        r@ == join_lines(lines.deep_view()),
{
    proof {
        reveal_strlit("\n");
    }
    let mut r = String::new();
    let mut i: usize = 0;
    while i < lines.len()
        invariant
            i <= lines.len(),
            r@ =~= join_lines(lines.deep_view().take(i as int)),
        decreases lines.len() - i,
    {
        if i > 0 {
            r.append("\n");
        }
        r.append(lines[i].as_str());
        proof {
            reveal_strlit("\n");
            let ghost dv = lines.deep_view();
            lemma_join_snoc(dv.take(i as int), dv[i as int]);
            assert(dv.take(i + 1) =~= dv.take(i as int).push(dv[i as int]));
        }
        i = i + 1;
    }
    proof {
        assert(lines.deep_view().take(lines.len() as int) =~= lines.deep_view());
    }
    r
}

} // verus!
