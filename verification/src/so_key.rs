//! Sandboxed storage-key derivation for the local object store.
//!
//! A key is composed from the hosting document's origin and the logical
//! name; every step must succeed or the lookup is rejected with the null
//! sentinel.  The steps, in order: reject forbidden characters in the
//! name; reject a secure lookup from a non-HTTPS origin; trim the document
//! path; for `file` documents drop a Windows drive letter and use the
//! fixed host `localhost`; validate an explicit local-path override as a
//! segment-boundary prefix of the document path; compose
//! `{host}/{local_path}/{prefix}{name}`; and reject any key with a
//! `/`-segment starting with `.` (path-traversal guard).

use crate::strutil::contains_char;
use vstd::prelude::*;

verus! {

/// The characters a logical name may not contain.
pub open spec fn is_forbidden_char(c: char) -> bool {
    c == '~' || c == '%' || c == '&' || c == '\\' || c == ';' || c == ':' || c == '"' || c == '\''
        || c == ',' || c == '<' || c == '>' || c == '?' || c == '#' || c == ' '
}

/// Whether a name holds a forbidden character.
pub open spec fn has_forbidden_char(s: Seq<char>) -> bool {
    exists|i: int| 0 <= i < s.len() && is_forbidden_char(#[trigger] s[i])
}

/// One leading and one trailing `/` removed.
pub open spec fn trim_slashes(s: Seq<char>) -> Seq<char> {
    let a = if s.len() > 0 && s[0] == '/' {
        s.subrange(1, s.len() as int)
    } else {
        s
    };
    if a.len() > 0 && a.last() == '/' {
        a.drop_last()
    } else {
        a
    }
}

/// A Windows drive-letter segment removed from the front of a `file`
/// document path.
pub open spec fn strip_drive(p: Seq<char>) -> Seq<char> {
    if p.len() >= 3 && (p[0] as u32) < 128 && p[1] == ':' && p[2] == '/' {
        p.subrange(3, p.len() as int)
    } else {
        p
    }
}

/// Whether `lp` is a prefix of `mp` ending at a `/`-segment boundary.
pub open spec fn is_segment_prefix(mp: Seq<char>, lp: Seq<char>) -> bool {
    mp.len() >= lp.len() && mp.subrange(0, lp.len() as int) == lp && (lp.len() == 0 || mp.len()
        == lp.len() || mp[lp.len() as int] == '/')
}

/// Whether some `/`-delimited segment of a key starts with `.`.
pub open spec fn has_dot_segment(s: Seq<char>) -> bool {
    exists|i: int| 0 <= i < s.len() && #[trigger] s[i] == '.' && (i == 0 || s[i - 1] == '/')
}

/// The storage key derived from a document origin and a logical name, or
/// `None` when any derivation step rejects the lookup.
pub open spec fn spec_so_key(
    scheme: Seq<char>,
    host: Seq<char>,
    path: Seq<char>,
    name: Seq<char>,
    local_path: Option<Seq<char>>,
    secure: bool,
) -> Option<Seq<char>> {
    if has_forbidden_char(name) {
        None
    } else if secure && scheme != "https"@ {
        None
    } else {
        let trimmed = trim_slashes(path);
        let movie_host = if scheme == "file"@ {
            "localhost"@
        } else {
            host
        };
        let movie_path = if scheme == "file"@ {
            strip_drive(trimmed)
        } else {
            trimmed
        };
        let chosen = match local_path {
            None => Some(movie_path),
            Some(lp) => if lp.len() == 0 {
                None
            } else {
                let t = trim_slashes(lp);
                if is_segment_prefix(movie_path, t) {
                    Some(t)
                } else {
                    None
                }
            },
        };
        match chosen {
            None => None,
            Some(lp) => {
                let prefix = if name.contains('/') {
                    "#"@
                } else {
                    Seq::<char>::empty()
                };
                let full = movie_host + "/"@ + lp + "/"@ + prefix + name;
                if has_dot_segment(full) {
                    None
                } else {
                    Some(full)
                }
            },
        }
    }
}

/// Whether `s` holds a forbidden character.
pub fn has_forbidden_char_exec(s: &str) -> (r: bool)
    ensures
        r == has_forbidden_char(s@),
{
    let n = s.unicode_len();
    let mut i: usize = 0;
    while i < n
        invariant
            0 <= i <= n,
            n == s@.len(),
            forall|j: int| 0 <= j < i ==> !is_forbidden_char(s@[j]),
        decreases n - i,
    {
        let c = s.get_char(i);
        if c == '~' || c == '%' || c == '&' || c == '\\' || c == ';' || c == ':' || c == '"' || c
            == '\'' || c == ',' || c == '<' || c == '>' || c == '?' || c == '#' || c == ' ' {
            return true;
        }
        i = i + 1;
    }
    false
}

/// Removes one leading and one trailing `/`.
pub fn trim_slashes_exec(s: &str) -> (r: &str)
    ensures
        r@ == trim_slashes(s@),
{
    let n = s.unicode_len();
    let start: usize = if n > 0 && s.get_char(0) == '/' {
        1
    } else {
        0
    };
    let end: usize = if n > start && s.get_char(n - 1) == '/' {
        n - 1
    } else {
        n
    };
    let r = s.substring_char(start, end);
    proof {
        assert(r@ =~= trim_slashes(s@));
    }
    r
}

/// Whether `lp` is a prefix of `mp` ending at a `/`-segment boundary.
pub fn is_segment_prefix_exec(mp: &str, lp: &str) -> (r: bool)
    ensures
        r == is_segment_prefix(mp@, lp@),
{
    let mn = mp.unicode_len();
    let ln = lp.unicode_len();
    if mn < ln {
        return false;
    }
    let mut i: usize = 0;
    while i < ln
        invariant
            0 <= i <= ln,
            ln == lp@.len(),
            mn == mp@.len(),
            ln <= mn,
            forall|j: int| 0 <= j < i ==> mp@[j] == lp@[j],
        decreases ln - i,
    {
        if mp.get_char(i) != lp.get_char(i) {
            proof {
                assert(mp@.subrange(0, ln as int)[i as int] != lp@[i as int]);
            }
            return false;
        }
        i = i + 1;
    }
    proof {
        assert(mp@.subrange(0, ln as int) =~= lp@);
    }
    if ln == 0 || mn == ln {
        true
    } else {
        mp.get_char(ln) == '/'
    }
}

/// Whether some `/`-delimited segment of a key starts with `.`.
pub fn has_dot_segment_exec(s: &str) -> (r: bool)
    ensures
        r == has_dot_segment(s@),
{
    let n = s.unicode_len();
    let mut i: usize = 0;
    while i < n
        invariant
            0 <= i <= n,
            n == s@.len(),
            forall|j: int| 0 <= j < i ==> !(#[trigger] s@[j] == '.' && (j == 0 || s@[j - 1] == '/')),
        decreases n - i,
    {
        if s.get_char(i) == '.' {
            if i == 0 {
                return true;
            }
            if s.get_char(i - 1) == '/' {
                return true;
            }
        }
        i = i + 1;
    }
    false
}

/// Derives the storage key for a logical name within a document origin,
/// or rejects the lookup.
pub fn resolve_so_key(
    scheme: &str,
    host: &str,
    path: &str,
    name: &str,
    local_path: Option<&str>,
    secure: bool,
) -> (r: Option<String>)
    ensures
        ({
            let spec_r = spec_so_key(
                scheme@,
                host@,
                path@,
                name@,
                match local_path {
                    Some(l) => Some(l@),
                    None => None,
                },
                secure,
            );
            match r {
                Some(k) => spec_r == Some(k@),
                None => spec_r is None,
            }
        }),
{
    if has_forbidden_char_exec(name) {
        return None;
    }
    if secure && !crate::strutil::str_eq(scheme, "https") {
        return None;
    }
    let trimmed = trim_slashes_exec(path);
    let is_file = crate::strutil::str_eq(scheme, "file");
    let movie_path: &str = if is_file {
        let tn = trimmed.unicode_len();
        if tn >= 3 && (trimmed.get_char(0) as u32) < 128 && trimmed.get_char(1) == ':'
            && trimmed.get_char(2) == '/' {
            let stripped = trimmed.substring_char(3, tn);
            proof {
                assert(stripped@ =~= strip_drive(trimmed@));
            }
            stripped
        } else {
            trimmed
        }
    } else {
        trimmed
    };
    let movie_host: &str = if is_file {
        "localhost"
    } else {
        host
    };
    let chosen: &str = match local_path {
        None => movie_path,
        Some(lp) => {
            if lp.unicode_len() == 0 {
                return None;
            }
            let t = trim_slashes_exec(lp);
            if is_segment_prefix_exec(movie_path, t) {
                t
            } else {
                return None;
            }
        },
    };
    let mut full = String::new();
    full.append(movie_host);
    full.append("/");
    full.append(chosen);
    full.append("/");
    if contains_char(name, '/') {
        full.append("#");
    }
    full.append(name);
    if has_dot_segment_exec(full.as_str()) {
        return None;
    }
    Some(full)
}

} // verus!
