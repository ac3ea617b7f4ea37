//! A character-level model of slash-separated file paths: locating the file
//! name, reading and replacing the extension, and stripping a root prefix
//! for display. Paths are handled as plain strings; no filesystem call is
//! made here.

use vstd::prelude::*;
use vstd::string::*;

use crate::text::{eq_ignore_ascii_case, seq_eq_ignore_ascii_case};

verus! {

/// Index of the last occurrence of `c` in `s`, if any.
pub open spec fn last_pos(s: Seq<char>, c: char) -> Option<int>
    decreases s.len(),
{
    if s.len() == 0 {
        None
    } else if s[s.len() - 1] == c {
        Some(s.len() - 1)
    } else {
        last_pos(s.drop_last(), c)
    }
}

pub proof fn lemma_last_pos_props(s: Seq<char>, c: char)
    ensures
        match last_pos(s, c) {
            Some(i) => 0 <= i < s.len() && s[i] == c && forall|j: int|
                i < j < s.len() ==> s[j] != c,
            None => forall|j: int| 0 <= j < s.len() ==> s[j] != c,
        },
    decreases s.len(),
{
    if s.len() > 0 && s[s.len() - 1] != c {
        lemma_last_pos_props(s.drop_last(), c);
        match last_pos(s, c) {
            Some(i) => {
                assert(s.drop_last()[i] == s[i]);
                assert forall|j: int| i < j < s.len() implies s[j] != c by {
                    if j < s.len() - 1 {
                        assert(s.drop_last()[j] != c);
                        assert(s.drop_last()[j] == s[j]);
                    }
                }
            },
            None => {
                assert forall|j: int| 0 <= j < s.len() implies s[j] != c by {
                    if j < s.len() - 1 {
                        assert(s.drop_last()[j] != c);
                        assert(s.drop_last()[j] == s[j]);
                    }
                }
            },
        }
    }
}

/// Scanning over a `c`-free suffix does not change where the last `c` is.
proof fn lemma_last_pos_take(s: Seq<char>, c: char, i: int)
    requires
        0 <= i <= s.len(),
        forall|j: int| i <= j < s.len() ==> s[j] != c,
    ensures
        last_pos(s, c) == last_pos(s.take(i), c),
    decreases s.len() - i,
{
    if i < s.len() {
        lemma_last_pos_take(s.drop_last(), c, i);
        assert(s.drop_last().take(i) =~= s.take(i));
    } else {
        assert(s.take(i) =~= s);
    }
}

/// Last occurrence of `c` in the string, scanning from the end.
fn last_pos_exec(s: &str, c: char) -> (r: Option<usize>)
    ensures
        match r {
            Some(i) => last_pos(s@, c) == Some(i as int),
            None => last_pos(s@, c) is None,
        },
{
    let len = s.unicode_len();
    let mut i: usize = len;
    while i > 0
        invariant
            i <= len,
            len == s@.len(),
            forall|j: int| i <= j < len ==> s@[j] != c,
        decreases i,
    {
        let ch = s.get_char(i - 1);
        if ch == c {
            proof {
                lemma_last_pos_take(s@, c, i as int);
                assert(s@.take(i as int).len() == i);
                assert(s@.take(i as int)[i - 1] == s@[i - 1]);
            }
            return Some(i - 1);
        }
        i -= 1;
    }
    proof {
        lemma_last_pos_take(s@, c, 0);
        assert(s@.take(0).len() == 0);
    }
    None
}

/// Index at which the file name (the part after the last slash) begins.
pub open spec fn file_name_start(p: Seq<char>) -> int {
    match last_pos(p, '/') {
        Some(i) => i + 1,
        None => 0,
    }
}

/// The file-name component of a path: everything after the last slash.
pub open spec fn file_name(p: Seq<char>) -> Seq<char> {
    p.skip(file_name_start(p))
}

/// The extension of a path: the part of the file name after its last dot,
/// where a dot that begins the file name does not count (a leading-dot name
/// has no extension).
pub open spec fn extension_of(p: Seq<char>) -> Option<Seq<char>> {
    let f = file_name(p);
    match last_pos(f, '.') {
        Some(i) => if i > 0 {
            Some(f.skip(i + 1))
        } else {
            None
        },
        None => None,
    }
}

/// Whether the path's extension equals `e` up to ASCII case. A path with no
/// extension matches nothing.
pub open spec fn spec_has_extension(p: Seq<char>, e: Seq<char>) -> bool {
    match extension_of(p) {
        Some(x) => seq_eq_ignore_ascii_case(x, e),
        None => false,
    }
}

/// The path with its extension replaced by `e`: the extension (if any) is cut
/// off after its dot and `e` put in its place; a path without an extension
/// gains a dot and `e`.
pub open spec fn spec_with_extension(p: Seq<char>, e: Seq<char>) -> Seq<char> {
    match extension_of(p) {
        Some(x) => p.take(p.len() - x.len()) + e,
        None => p + seq!['.'] + e,
    }
}

/// The path relative to `root`, if `root` is a slash-boundary prefix of it
/// (or the whole of it).
pub open spec fn spec_strip_prefix(root: Seq<char>, p: Seq<char>) -> Option<Seq<char>> {
    if p =~= root {
        Some(Seq::<char>::empty())
    } else if root.len() > 0 && root[root.len() - 1] == '/' && p.len() > root.len() && p.take(
        root.len() as int,
    ) =~= root {
        Some(p.skip(root.len() as int))
    } else if p.len() > root.len() && p.take(root.len() as int) =~= root && p[root.len() as int]
        == '/' {
        Some(p.skip(root.len() as int + 1))
    } else {
        None
    }
}

/// The label shown for a path: the part below `root` where `root` is a
/// prefix, the full path otherwise.
pub open spec fn spec_display_relative(root: Seq<char>, p: Seq<char>) -> Seq<char> {
    match spec_strip_prefix(root, p) {
        Some(s) => s,
        None => p,
    }
}

/// The first `n` characters of the two strings are equal.
fn prefix_eq(a: &str, b: &str, n: usize) -> (r: bool)
    requires
        n <= a@.len(),
        n <= b@.len(),
    ensures
        r == (a@.take(n as int) =~= b@.take(n as int)),
{
    let mut i: usize = 0;
    while i < n
        invariant
            i <= n,
            n <= a@.len(),
            n <= b@.len(),
            forall|j: int| 0 <= j < i ==> a@[j] == b@[j],
        decreases n - i,
    {
        if a.get_char(i) != b.get_char(i) {
            assert(a@.take(n as int)[i as int] != b@.take(n as int)[i as int]);
            return false;
        }
        i += 1;
    }
    assert(a@.take(n as int) =~= b@.take(n as int));
    true
}

/// Whether the file at `path` carries the extension `expected`, compared
/// without regard to ASCII case.
pub fn has_extension(path: &str, expected: &str) -> (r: bool)
    ensures
        r == spec_has_extension(path@, expected@),
{
    let plen = path.unicode_len();
    let fstart: usize = match last_pos_exec(path, '/') {
        Some(i) => {
            proof {
                lemma_last_pos_props(path@, '/');
            }
            i + 1
        },
        None => 0,
    };
    let f = path.substring_char(fstart, plen);
    proof {
        assert(f@ =~= file_name(path@));
    }
    let flen = f.unicode_len();
    match last_pos_exec(f, '.') {
        Some(d) => {
            proof {
                lemma_last_pos_props(f@, '.');
            }
            if d > 0 {
                let ext = f.substring_char(d + 1, flen);
                proof {
                    assert(ext@ =~= extension_of(path@).unwrap());
                }
                eq_ignore_ascii_case(ext, expected)
            } else {
                false
            }
        },
        None => false,
    }
}

/// The path with its extension replaced by `ext` (gaining a dot and `ext`
/// when it had none).
pub fn with_extension(path: &str, ext: &str) -> (r: String)
    ensures
        r@ == spec_with_extension(path@, ext@),
{
    proof {
        reveal_strlit(".");
    }
    let plen = path.unicode_len();
    let fstart: usize = match last_pos_exec(path, '/') {
        Some(i) => {
            proof {
                lemma_last_pos_props(path@, '/');
            }
            i + 1
        },
        None => 0,
    };
    let f = path.substring_char(fstart, plen);
    proof {
        assert(f@ =~= file_name(path@));
    }
    let flen = f.unicode_len();
    match last_pos_exec(f, '.') {
        Some(d) => {
            proof {
                lemma_last_pos_props(f@, '.');
            }
            if d > 0 {
                let stem_len = fstart + d + 1;
                let stem = path.substring_char(0, stem_len);
                let mut r = String::from_str(stem);
                r.append(ext);
                proof {
                    let x = extension_of(path@).unwrap();
                    assert(stem@ =~= path@.take(path@.len() - x.len()));
                    assert(r@ =~= spec_with_extension(path@, ext@));
                }
                r
            } else {
                let mut r = String::from_str(path);
                r.append(".");
                r.append(ext);
                proof {
                    assert(r@ =~= spec_with_extension(path@, ext@));
                }
                r
            }
        },
        None => {
            let mut r = String::from_str(path);
            r.append(".");
            r.append(ext);
            proof {
                assert(r@ =~= spec_with_extension(path@, ext@));
            }
            r
        },
    }
}

/// The display form of `path` below `root`: the root prefix (and its
/// trailing separator) is removed where it is present; otherwise the path
/// is shown whole.
pub fn display_relative(root: &str, path: &str) -> (r: String)
    ensures
        r@ == spec_display_relative(root@, path@),
{
    let rlen = root.unicode_len();
    let plen = path.unicode_len();
    if rlen <= plen && prefix_eq(path, root, rlen) {
        proof {
            assert(root@.take(rlen as int) =~= root@);
        }
        if plen == rlen {
            proof {
                assert(path@ =~= root@);
            }
            return String::new();
        }
        if rlen > 0 && root.get_char(rlen - 1) == '/' {
            let rest = path.substring_char(rlen, plen);
            proof {
                assert(rest@ =~= path@.skip(rlen as int));
                assert(!(path@ =~= root@));
            }
            return String::from_str(rest);
        }
        if path.get_char(rlen) == '/' {
            let rest = path.substring_char(rlen + 1, plen);
            proof {
                assert(rest@ =~= path@.skip(rlen as int + 1));
                assert(!(path@ =~= root@));
            }
            return String::from_str(rest);
        }
        proof {
            assert(spec_strip_prefix(root@, path@) is None);
        }
        return String::from_str(path);
    }
    proof {
        if rlen <= plen {
            assert(!(path@.take(rlen as int) =~= root@.take(rlen as int)));
            if path@ =~= root@ {
                assert(path@.take(rlen as int) =~= root@.take(rlen as int));
            }
            assert(spec_strip_prefix(root@, path@) is None);
        } else {
            if path@ =~= root@ {
                assert(path@.len() == root@.len());
            }
            assert(spec_strip_prefix(root@, path@) is None);
        }
    }
    String::from_str(path)
}

} // verus!
