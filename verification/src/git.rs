//! The template locator grammar: where a template's source repository
//! lives. Three shapes are accepted, tried in this order:
//!
//! - local: `file://` followed by a non-empty run of non-whitespace
//!   characters, the local path;
//! - remote: text beginning with `git` plus one of `@ | : /`, or containing
//!   `https://`, `http://` or `ssh://` anywhere;
//! - github shorthand: `owner/repo`, a single `/` between two non-empty
//!   runs of characters that are neither whitespace nor `/`.
//!
//! Fetching the repository itself is the caller's business.

use crate::chars::{contains_str, has_prefix, has_substring, is_space, space_char, starts_with};
use crate::errors::Error;
use vstd::prelude::*;

verus! {

/// A parsed template locator.
#[derive(Debug, PartialEq)]
pub enum Url {
    /// A local repository path, as captured after `file://`.
    Local(String),
    /// A github `owner/repo` shorthand.
    Github(String, String),
    /// Any other remote repository locator, kept verbatim.
    Remote(String),
}

/// `s` is a local locator: `file://` then one or more non-whitespace
/// characters.
pub open spec fn spec_local(s: Seq<char>) -> bool {
    let p = "file://"@;
    p.len() < s.len() && has_prefix(s, p) && (forall|j: int|
        p.len() <= j < s.len() ==> !is_space(s[j]))
}

/// `s` is a remote locator: it starts with `git` plus one of `@ | : /`, or
/// contains `https://`, `http://` or `ssh://`.
pub open spec fn spec_remote(s: Seq<char>) -> bool {
    (s.len() >= 4 && has_prefix(s, "git"@) && (s[3] == '@' || s[3] == '|' || s[3] == ':' || s[3]
        == '/')) || has_substring(s, "https://"@) || has_substring(s, "http://"@) || has_substring(
        s,
        "ssh://"@,
    )
}

/// `s` is the github shorthand `owner/repo` with its single `/` at `i`.
pub open spec fn spec_github_at(s: Seq<char>, i: int) -> bool {
    0 < i < s.len() - 1 && s[i] == '/' && (forall|j: int|
        0 <= j < s.len() && j != i ==> s[j] != '/' && !is_space(s[j]))
}

/// `s` is a github `owner/repo` shorthand.
pub open spec fn spec_github(s: Seq<char>) -> bool {
    exists|i: int| spec_github_at(s, i)
}

impl Url {
    /// Parses a template locator, trying the local, remote and github
    /// shapes in that order, and rejecting text that matches none.
    pub fn from_str(txt: &str) -> (r: Result<Url, Error>)
        ensures
            match r {
                Ok(u) => match u {
                    Url::Local(p) => spec_local(txt@) && p@ == txt@.subrange(
                        "file://"@.len() as int,
                        txt@.len() as int,
                    ),
                    Url::Remote(t) => !spec_local(txt@) && spec_remote(txt@) && t@ == txt@,
                    Url::Github(a, b) => !spec_local(txt@) && !spec_remote(txt@)
                        && spec_github_at(txt@, a@.len() as int) && a@ == txt@.subrange(
                        0,
                        a@.len() as int,
                    ) && b@ == txt@.subrange(a@.len() as int + 1, txt@.len() as int),
                },
                Err(e) => !spec_local(txt@) && !spec_remote(txt@) && !spec_github(txt@) && (match e {
                    Error::InvalidUri(t) => t@ == txt@,
                    _ => false,
                }),
            },
    {
        let n: usize = txt.unicode_len();
        proof {
            reveal_strlit("file://");
        }
        // Local: file:// then a non-empty run of non-whitespace.
        if starts_with(txt, "file://") && n > 7 {
            let mut j: usize = 7;
            let mut clean: bool = true;
            while j < n && clean
                invariant
                    7 <= j <= n,
                    n as int == txt@.len(),
                    "file://"@.len() == 7,
                    clean ==> forall|k: int| 7 <= k < j ==> !is_space(txt@[k]),
                    !clean ==> !spec_local(txt@),
                decreases n - j + (if clean {
                    1int
                } else {
                    0int
                }),
            {
                if space_char(txt.get_char(j)) {
                    clean = false;
                } else {
                    j = j + 1;
                }
            }
            if clean {
                let path: String = String::from_str(txt.substring_char(7, n));
                return Ok(Url::Local(path));
            }
        } else {
            proof {
                assert(!spec_local(txt@));
            }
        }
        // Remote: a git-style head or an embedded scheme.
        let mut git_head: bool = false;
        if n >= 4 && starts_with(txt, "git") {
            let c = txt.get_char(3);
            git_head = c == '@' || c == '|' || c == ':' || c == '/';
        }
        if git_head || contains_str(txt, "https://") || contains_str(txt, "http://")
            || contains_str(txt, "ssh://") {
            return Ok(Url::Remote(String::from_str(txt)));
        }
        // Github shorthand: owner/repo.
        let mut i: usize = 0;
        let mut slash: usize = 0;
        let mut slash2: usize = 0;
        let mut slashes: usize = 0;
        let mut clean: bool = true;
        while i < n
            invariant
                0 <= i <= n,
                n as int == txt@.len(),
                slashes <= i,
                clean ==> forall|k: int| 0 <= k < i ==> !is_space(txt@[k]),
                !clean ==> exists|k: int| 0 <= k < txt@.len() && is_space(txt@[k]),
                slashes == 0 ==> forall|k: int| 0 <= k < i ==> txt@[k] != '/',
                slashes >= 1 ==> (slash as int) < i && txt@[slash as int] == '/',
                slashes == 1 ==> forall|k: int|
                    0 <= k < i && k != slash as int ==> txt@[k] != '/',
                slashes >= 2 ==> (slash as int) < slash2 && (slash2 as int) < i && txt@[
                    slash2 as int
                ] == '/',
            decreases n - i,
        {
            let c = txt.get_char(i);
            if space_char(c) {
                clean = false;
            }
            if c == '/' {
                if slashes == 0 {
                    slash = i;
                } else if slashes == 1 {
                    slash2 = i;
                }
                slashes = slashes + 1;
            }
            i = i + 1;
        }
        if clean && slashes == 1 && slash > 0 && slash < n - 1 {
            proof {
                assert(spec_github_at(txt@, slash as int));
            }
            let a: String = String::from_str(txt.substring_char(0, slash));
            let b: String = String::from_str(txt.substring_char(slash + 1, n));
            return Ok(Url::Github(a, b));
        }
        proof {
            assert forall|k: int| !spec_github_at(txt@, k) by {
                if !clean {
                    let w = choose|w: int| 0 <= w < txt@.len() && is_space(txt@[w]);
                    if w == k {
                        assert(is_space(txt@[k]));
                    } else {
                        assert(0 <= w < txt@.len() && w != k && is_space(txt@[w]));
                    }
                } else if slashes == 0 {
                    // no '/' occurs at all
                } else if slashes == 1 {
                    // the only '/' sits at an edge
                    if k == slash as int {
                        assert(slash == 0 || slash as int >= txt@.len() - 1);
                    }
                } else {
                    // two distinct '/' occurrences
                    if k != slash as int {
                        assert(txt@[slash as int] == '/');
                    } else {
                        assert(txt@[slash2 as int] == '/');
                    }
                }
            }
            assert(!spec_github(txt@));
        }
        Err(Error::InvalidUri(String::from_str(txt)))
    }
}

} // verus!
