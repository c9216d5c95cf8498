//! The generated release manifest.
//!
//! The repository owner and name are read out of the metadata's update
//! URL: the first `github.com` followed by `/` or `:`, an owner up to the
//! next `/`, and a repository name running to the next `/` or the end,
//! one trailing `.git` dropped.
//! A URL that does not fit this shape falls back to the placeholder
//! pair `unknown`/`repo`; the fallback is never an error. The manifest
//! itself is one JSON object with a changelog URL, a version string, the
//! version code, and the archive's download URL.

use vstd::prelude::*;

verus! {

use crate::text::contains_seq;
use crate::text::dec_rep;
use crate::text::occurs_at;
use crate::text::u64_to_dec;
use vstd::string::StrSliceExecFns;
use vstd::string::StringExecFns;

/// A `github.com` anchor at index `i`: the host name followed by `/` or
/// `:`, with room for at least one character after the separator.
pub open spec fn anchor_at(s: Seq<char>, i: int) -> bool {
    &&& occurs_at(s, "github.com"@, i)
    &&& i + 11 <= s.len()
    &&& (s[i + 10] == '/' || s[i + 10] == ':')
}

/// Index of the first anchor at or after `i`, `-1` when none exists.
pub open spec fn first_anchor_from(s: Seq<char>, i: int) -> int
    decreases s.len() - i,
{
    if i < 0 || i + 11 > s.len() {
        -1
    } else if anchor_at(s, i) {
        i
    } else {
        first_anchor_from(s, i + 1)
    }
}

/// Index of the first `/` at or after `i`, `-1` when none exists.
pub open spec fn slash_from(s: Seq<char>, i: int) -> int
    decreases s.len() - i,
{
    if i < 0 || i >= s.len() {
        -1
    } else if s[i] == '/' {
        i
    } else {
        slash_from(s, i + 1)
    }
}

/// A repository segment without one trailing `.git`.
pub open spec fn strip_git(name: Seq<char>) -> Seq<char> {
    if (".git"@).is_suffix_of(name) {
        name.take(name.len() - 4)
    } else {
        name
    }
}

/// The owner and repository read out of an update URL, `None` when the
/// URL does not fit the shape described at the top of this module.
pub open spec fn github_parse(s: Seq<char>) -> Option<(Seq<char>, Seq<char>)> {
    let a = first_anchor_from(s, 0);
    if a < 0 {
        None
    } else {
        let o = a + 11;
        let sl = slash_from(s, o);
        if sl < 0 || sl == o {
            None
        } else {
            let r0 = sl + 1;
            let re = if slash_from(s, r0) < 0 {
                s.len() as int
            } else {
                slash_from(s, r0)
            };
            if re == r0 {
                None
            } else {
                Some((s.subrange(o, sl), strip_git(s.subrange(r0, re))))
            }
        }
    }
}

proof fn lemma_first_anchor_from(s: Seq<char>, i: int)
    requires
        0 <= i,
    ensures
        first_anchor_from(s, i) == -1 || first_anchor_from(s, i) >= 0,
        first_anchor_from(s, i) == -1 ==> forall|j: int| i <= j ==> !anchor_at(s, j),
        first_anchor_from(s, i) >= 0 ==> i <= first_anchor_from(s, i) && anchor_at(
            s,
            first_anchor_from(s, i),
        ) && forall|j: int| i <= j < first_anchor_from(s, i) ==> !anchor_at(s, j),
    decreases s.len() - i,
{
    if i + 11 > s.len() {
        assert(forall|j: int| i <= j ==> !anchor_at(s, j));
    } else if !anchor_at(s, i) {
        lemma_first_anchor_from(s, i + 1);
    }
}

proof fn lemma_slash_from(s: Seq<char>, i: int)
    requires
        0 <= i <= s.len(),
    ensures
        slash_from(s, i) == -1 || slash_from(s, i) >= 0,
        slash_from(s, i) == -1 ==> forall|j: int| i <= j < s.len() ==> s[j] != '/',
        slash_from(s, i) >= 0 ==> i <= slash_from(s, i) < s.len() && s[slash_from(s, i)] == '/'
            && forall|j: int| i <= j < slash_from(s, i) ==> s[j] != '/',
    decreases s.len() - i,
{
    if i < s.len() && s[i] != '/' {
        lemma_slash_from(s, i + 1);
    }
}

/// Read the repository owner and name out of an update URL, `None` when
/// the URL does not fit the shape this module describes.
pub fn github_owner_repo(url: &str) -> (r: Option<(String, String)>)
    ensures
        match r {
            Some(p) => github_parse(url@) == Some((p.0@, p.1@)),
            None => github_parse(url@) is None,
        },
{
    proof {
        reveal_strlit("github.com");
    }
    let n = url.unicode_len();
    let mut a: usize = 0;
    let mut found = false;
    if n >= 11 {
        while a <= n - 11 && !found
            invariant
                n == url@.len(),
                n >= 11,
                a + 11 <= n + 1,
                found ==> a + 11 <= n && anchor_at(url@, a as int),
                forall|j: int| 0 <= j < a ==> !anchor_at(url@, j),
            decreases n - a, (if found { 0int } else { 1int }),
        {
            proof {
                reveal_strlit("github.com");
            }
            if crate::text::occurs_at_exec(url, "github.com", a) {
                let sep = url.get_char(a + 10);
                if sep == '/' || sep == ':' {
                    found = true;
                } else {
                    a = a + 1;
                }
            } else {
                a = a + 1;
            }
        }
    }
    proof {
        lemma_first_anchor_from(url@, 0);
        if found {
            assert(first_anchor_from(url@, 0) == a as int) by {
                let f = first_anchor_from(url@, 0);
                if f < 0 {
                    assert(!anchor_at(url@, a as int));
                } else {
                    if f < a as int {
                        assert(!anchor_at(url@, f));
                    }
                    if (a as int) < f {
                        assert(!anchor_at(url@, a as int));
                    }
                }
            }
        } else {
            assert(first_anchor_from(url@, 0) == -1) by {
                let f = first_anchor_from(url@, 0);
                if f >= 0 {
                    assert(anchor_at(url@, f));
                    assert(f + 11 <= n);
                    assert(false);
                }
            }
        }
    }
    if !found {
        return None;
    }
    let o = a + 11;
    let mut sl: usize = o;
    while sl < n && url.get_char(sl) != '/'
        invariant
            n == url@.len(),
            o <= sl <= n,
            forall|j: int| o <= j < sl ==> url@[j] != '/',
        decreases n - sl,
    {
        sl = sl + 1;
    }
    proof {
        lemma_slash_from(url@, o as int);
        if sl < n {
            assert(slash_from(url@, o as int) == sl as int) by {
                let f = slash_from(url@, o as int);
                if f < 0 {
                } else {
                    if f < sl as int {
                    }
                    if (sl as int) < f {
                    }
                }
            }
        } else {
            assert(slash_from(url@, o as int) == -1) by {
                let f = slash_from(url@, o as int);
                if f >= 0 {
                }
            }
        }
    }
    if sl == n || sl == o {
        return None;
    }
    let r0 = sl + 1;
    let mut re: usize = r0;
    while re < n && url.get_char(re) != '/'
        invariant
            n == url@.len(),
            r0 <= re <= n,
            forall|j: int| r0 <= j < re ==> url@[j] != '/',
        decreases n - re,
    {
        re = re + 1;
    }
    proof {
        lemma_slash_from(url@, r0 as int);
        if re < n {
            assert(slash_from(url@, r0 as int) == re as int) by {
                let f = slash_from(url@, r0 as int);
                if f < 0 {
                } else {
                    if f < re as int {
                    }
                    if (re as int) < f {
                    }
                }
            }
        } else {
            assert(slash_from(url@, r0 as int) == -1) by {
                let f = slash_from(url@, r0 as int);
                if f >= 0 {
                }
            }
        }
    }
    if re == r0 {
        return None;
    }
    let owner = url.substring_char(o, sl);
    let raw = url.substring_char(r0, re);
    let rn = re - r0;
    let repo = if crate::text::ends_with_str(raw, ".git") {
        proof {
            reveal_strlit(".git");
        }
        let stem = raw.substring_char(0, rn - 4);
        proof {
            assert(stem@ =~= strip_git(url@.subrange(r0 as int, re as int)));
        }
        String::from_str(stem)
    } else {
        String::from_str(raw)
    };
    Some((String::from_str(owner), repo))
}

/// Read the repository owner and name out of an update URL, falling back
/// to the placeholder pair `unknown`/`repo` when the URL does not fit.
/// The fallback is never an error.
pub fn owner_repo_or_placeholder(url: &str) -> (r: (String, String))
    ensures
        match github_parse(url@) {
            Some(pair) => r.0@ == pair.0 && r.1@ == pair.1,
            None => r.0@ == "unknown"@ && r.1@ == "repo"@,
        },
{
    match github_owner_repo(url) {
        Some(p) => p,
        None => (String::from_str("unknown"), String::from_str("repo")),
    }
}

/// The update manifest's own URL for a repository: where a released
/// build's manifest is fetched from.
pub open spec fn update_json_url_spec(owner: Seq<char>, repo: Seq<char>) -> Seq<char> {
    "https://github.com/"@ + owner + "/"@ + repo + "/releases/latest/download/update.json"@
}

/// The update URL written into a fresh project's metadata, from what the
/// version control oracle reported: the owner and repository of the
/// remote when readable, else the reported user with the tool's default
/// repository name, else the tool's own pair.
pub fn derive_update_json(remote_url: Option<&String>, git_user: Option<&String>) -> (r: String)
    ensures
        ({
            let parsed = match remote_url {
                Some(u) => github_parse(u@),
                None => None,
            };
            match parsed {
                Some(pair) => r@ == update_json_url_spec(pair.0, pair.1),
                None => match git_user {
                    Some(u) => r@ == update_json_url_spec(u@, "ksmm"@),
                    None => r@ == update_json_url_spec("ksmm"@, "ksmm"@),
                },
            }
        }),
{
    let parsed = match remote_url {
        Some(u) => github_owner_repo(u.as_str()),
        None => None,
    };
    let (owner, repo) = match parsed {
        Some(p) => p,
        None => match git_user {
            Some(u) => (u.clone(), String::from_str("ksmm")),
            None => (String::from_str("ksmm"), String::from_str("ksmm")),
        },
    };
    let mut s = String::from_str("https://github.com/");
    s.append(owner.as_str());
    s.append("/");
    s.append(repo.as_str());
    s.append("/releases/latest/download/update.json");
    s
}

/// The archive download URL of one build.
pub open spec fn zip_url_spec(id: Seq<char>, code: nat, owner: Seq<char>, repo: Seq<char>) -> Seq<
    char,
> {
    "https://github.com/"@ + owner + "/"@ + repo + "/releases/latest/download/"@ + id + "-"@ + dec_rep(
        code,
    ) + ".zip"@
}

/// The changelog URL of one build.
pub open spec fn changelog_url_spec(id: Seq<char>, owner: Seq<char>, repo: Seq<char>) -> Seq<
    char,
> {
    "https://raw.githubusercontent.com/"@ + owner + "/"@ + repo + "/main/"@ + id + "/CHANGELOG.md"@
}

/// The whole release manifest of one build, as one JSON object.
pub open spec fn manifest_spec(
    id: Seq<char>,
    version: Seq<char>,
    code: nat,
    owner: Seq<char>,
    repo: Seq<char>,
    commit: Seq<char>,
) -> Seq<char> {
    "{\"changelog\": \""@ + changelog_url_spec(id, owner, repo) + "\", \"version\": \"v"@ + version
        + "-"@ + commit + "\", \"versionCode\": "@ + dec_rep(code) + ", \"zipUrl\": \""@
        + zip_url_spec(id, code, owner, repo) + "\"}"@
}

/// Write the release manifest for one build.
pub fn render_manifest(
    id: &str,
    version: &str,
    version_code: u64,
    owner: &str,
    repo: &str,
    commit: &str,
) -> (r: String)
    ensures
        r@ == manifest_spec(id@, version@, version_code as nat, owner@, repo@, commit@),
{
    let code = u64_to_dec(version_code);
    let mut s = String::from_str("{\"changelog\": \"");
    s.append("https://raw.githubusercontent.com/");
    s.append(owner);
    s.append("/");
    s.append(repo);
    s.append("/main/");
    s.append(id);
    s.append("/CHANGELOG.md");
    s.append("\", \"version\": \"v");
    s.append(version);
    s.append("-");
    s.append(commit);
    s.append("\", \"versionCode\": ");
    s.append(code.as_str());
    s.append(", \"zipUrl\": \"");
    s.append("https://github.com/");
    s.append(owner);
    s.append("/");
    s.append(repo);
    s.append("/releases/latest/download/");
    s.append(id);
    s.append("-");
    s.append(code.as_str());
    s.append(".zip");
    s.append("\"}");
    proof {
        assert(s@ =~= manifest_spec(id@, version@, version_code as nat, owner@, repo@, commit@));
    }
    s
}

/// Manifest fallback: the download URL written for the placeholder pair
/// holds `unknown` and `repo` in the owner and repository positions.
pub proof fn lemma_zip_url_fallback(id: Seq<char>, code: nat)
    ensures
        contains_seq(zip_url_spec(id, code, "unknown"@, "repo"@), "github.com/unknown/repo/"@),
{
    reveal_strlit("https://github.com/");
    reveal_strlit("unknown");
    reveal_strlit("repo");
    reveal_strlit("/");
    reveal_strlit("/releases/latest/download/");
    reveal_strlit("github.com/unknown/repo/");
    let z = zip_url_spec(id, code, "unknown"@, "repo"@);
    assert(occurs_at(z, "github.com/unknown/repo/"@, 8)) by {
        assert(z.subrange(8, 8 + "github.com/unknown/repo/"@.len() as int)
            =~= "github.com/unknown/repo/"@);
    }
}

} // verus!
