//! Layered filter rules: an ordered ignore list and an ordered force-keep
//! list, read from two optional rule texts.
//!
//! Both texts share one line grammar: lines are trimmed; blank lines and
//! lines starting with `#` say nothing; a line starting with `!` adds the
//! rest of the line to the force-keep list; every other line adds itself to
//! the ignore list. The generic ignore text contributes first, the tool
//! configuration text after it; entries accumulate and never expire.
//! A force-keep rule always beats an ignore rule for the same path.

use vstd::prelude::*;

verus! {

use crate::text::is_line_split;
use crate::text::split_lines;
use crate::text::trim_spec;
use crate::text::trim_str;
use vstd::string::StrSliceExecFns;

/// What one (already trimmed) rule line adds to the ignore list.
pub open spec fn ignore_contrib(t: Seq<char>) -> Seq<Seq<char>> {
    if t.len() == 0 || t[0] == '#' || t[0] == '!' {
        Seq::empty()
    } else {
        seq![t]
    }
}

/// What one (already trimmed) rule line adds to the force-keep list.
pub open spec fn keep_contrib(t: Seq<char>) -> Seq<Seq<char>> {
    if t.len() > 0 && t[0] == '!' {
        seq![t.skip(1)]
    } else {
        Seq::empty()
    }
}

/// The ignore patterns that a sequence of raw lines declares, in order.
pub open spec fn ignores_of(lines: Seq<Seq<char>>) -> Seq<Seq<char>>
    decreases lines.len(),
{
    if lines.len() == 0 {
        Seq::empty()
    } else {
        ignores_of(lines.drop_last()) + ignore_contrib(trim_spec(lines.last()))
    }
}

/// The force-keep patterns that a sequence of raw lines declares, in order.
pub open spec fn keeps_of(lines: Seq<Seq<char>>) -> Seq<Seq<char>>
    decreases lines.len(),
{
    if lines.len() == 0 {
        Seq::empty()
    } else {
        keeps_of(lines.drop_last()) + keep_contrib(trim_spec(lines.last()))
    }
}

/// The raw lines of one optional rule text: the text's line split when it
/// is there, no lines at all when it is missing.
pub open spec fn lines_of_source(source: Option<Seq<char>>, lines: Seq<Seq<char>>) -> bool {
    match source {
        Some(content) => is_line_split(content, lines),
        None => lines == Seq::<Seq<char>>::empty(),
    }
}

/// The rule lists `ignore` and `keep` are what the two optional rule
/// texts declare, the generic text's rules first.
pub open spec fn loaded_from(
    ignore: Seq<Seq<char>>,
    keep: Seq<Seq<char>>,
    generic: Option<Seq<char>>,
    tool: Option<Seq<char>>,
) -> bool {
    exists|gl: Seq<Seq<char>>, tl: Seq<Seq<char>>|
        {
            &&& #[trigger] lines_of_source(generic, gl)
            &&& #[trigger] lines_of_source(tool, tl)
            &&& ignore == ignores_of(gl) + ignores_of(tl)
            &&& keep == keeps_of(gl) + keeps_of(tl)
        }
}

/// The two ordered rule lists of one build: patterns that ignore paths, and
/// patterns that force paths to be kept even when an ignore rule matches.
pub struct RuleSet {
    pub ignore: Vec<String>,
    pub keep: Vec<String>,
}

impl RuleSet {
    /// An empty rule set: nothing ignored, nothing forced.
    pub fn new() -> (r: RuleSet)
        ensures
            r.ignore.deep_view() == Seq::<Seq<char>>::empty(),
            r.keep.deep_view() == Seq::<Seq<char>>::empty(),
    {
        let r = RuleSet { ignore: Vec::new(), keep: Vec::new() };
        proof {
            assert(r.ignore.deep_view() =~= Seq::<Seq<char>>::empty());
            assert(r.keep.deep_view() =~= Seq::<Seq<char>>::empty());
        }
        r
    }

    /// Build the rule set of one build from its two optional rule texts:
    /// the generic ignore text contributes first, the tool configuration
    /// text after it, and a missing text contributes nothing — never an
    /// error.
    pub fn load(generic: Option<&String>, tool: Option<&String>) -> (r: RuleSet)
        ensures
            loaded_from(
                r.ignore.deep_view(),
                r.keep.deep_view(),
                match generic {
                    Some(c) => Some(c@),
                    None => None,
                },
                match tool {
                    Some(c) => Some(c@),
                    None => None,
                },
            ),
    {
        let mut r = RuleSet::new();
        let ghost mut gl: Seq<Seq<char>> = Seq::empty();
        let ghost mut tl: Seq<Seq<char>> = Seq::empty();
        match generic {
            Some(c) => {
                let ghost pre_ig = r.ignore.deep_view();
                let ghost pre_kp = r.keep.deep_view();
                r.add_text(c.as_str());
                proof {
                    gl = choose|lines: Seq<Seq<char>>|
                        #[trigger] is_line_split(c@, lines) && r.ignore.deep_view() == pre_ig
                            + ignores_of(lines) && r.keep.deep_view() == pre_kp + keeps_of(lines);
                }
            },
            None => (),
        }
        let ghost mid_ig = r.ignore.deep_view();
        let ghost mid_kp = r.keep.deep_view();
        match tool {
            Some(c) => {
                r.add_text(c.as_str());
                proof {
                    tl = choose|lines: Seq<Seq<char>>|
                        #[trigger] is_line_split(c@, lines) && r.ignore.deep_view() == mid_ig
                            + ignores_of(lines) && r.keep.deep_view() == mid_kp + keeps_of(lines);
                }
            },
            None => (),
        }
        proof {
            let g = match generic {
                Some(c) => Some(c@),
                None => None,
            };
            let t = match tool {
                Some(c) => Some(c@),
                None => None,
            };
            assert(lines_of_source(g, gl));
            assert(lines_of_source(t, tl));
            assert(r.ignore.deep_view() =~= ignores_of(gl) + ignores_of(tl));
            assert(r.keep.deep_view() =~= keeps_of(gl) + keeps_of(tl));
        }
        r
    }

    /// Add every rule of one text to this set, in line order.
    pub fn add_text(&mut self, content: &str)
        ensures
            exists|lines: Seq<Seq<char>>|
                #[trigger] is_line_split(content@, lines) && final(self).ignore.deep_view() == old(
                    self,
                ).ignore.deep_view() + ignores_of(lines) && final(self).keep.deep_view() == old(
                    self,
                ).keep.deep_view() + keeps_of(lines),
    {
        let lines = split_lines(content);
        let ghost lseq = lines.deep_view();
        let ghost ig0 = self.ignore.deep_view();
        let ghost kp0 = self.keep.deep_view();
        let n = lines.len();
        let mut i: usize = 0;
        while i < n
            invariant
                n == lines.len(),
                i <= n,
                lseq == lines.deep_view(),
                self.ignore.deep_view() =~= ig0 + ignores_of(lseq.take(i as int)),
                self.keep.deep_view() =~= kp0 + keeps_of(lseq.take(i as int)),
            decreases n - i,
        {
            let t = trim_str(lines[i].as_str());
            let tn = t.as_str().unicode_len();
            let ghost pre_ig = self.ignore.deep_view();
            let ghost pre_kp = self.keep.deep_view();
            if tn == 0 {
            } else if t.as_str().get_char(0) == '#' {
            } else if t.as_str().get_char(0) == '!' {
                let rest = t.as_str().substring_char(1, tn);
                self.keep.push(String::from_str(rest));
                proof {
                    assert(self.keep.deep_view() =~= pre_kp.push(trim_spec(lseq[i as int]).skip(
                        1,
                    )));
                }
            } else {
                self.ignore.push(t);
                proof {
                    assert(self.ignore.deep_view() =~= pre_ig.push(trim_spec(lseq[i as int])));
                }
            }
            proof {
                let ghost tk = lseq.take(i + 1);
                assert(tk.drop_last() =~= lseq.take(i as int));
                assert(tk.last() == lseq[i as int]);
                assert(self.ignore.deep_view() =~= ig0 + ignores_of(lseq.take(i + 1)));
                assert(self.keep.deep_view() =~= kp0 + keeps_of(lseq.take(i + 1)));
            }
            i = i + 1;
        }
        proof {
            assert(lseq.take(n as int) =~= lseq);
        }
    }
}

} // verus!
