//! Project-relative path resolution and path-string helpers.
//!
//! The library models paths as plain strings: a path is absolute when it
//! starts with a separator or with a drive letter, colon and separator; and
//! separators are normalized to forward slashes in everything handed back to
//! the front end.

use vstd::prelude::*;
use vstd::string::StrSliceExecFns;
use vstd::string::StringExecFns;
use crate::text::has_prefix;
use crate::text::strip_prefix;

verus! {

/// A path separator: forward or backward slash.
pub open spec fn is_sep(c: char) -> bool {
    c == '/' || c == '\\'
}

fn is_sep_char(c: char) -> (r: bool)
    ensures
        r == is_sep(c),
{
    c == '/' || c == '\\'
}

pub open spec fn is_ascii_letter(c: char) -> bool {
    ('a' <= c && c <= 'z') || ('A' <= c && c <= 'Z')
}

/// Whether a path string is absolute: it starts with a separator, or with a
/// drive letter, a colon and a separator.
pub open spec fn is_absolute_spec(s: Seq<char>) -> bool {
    ||| (s.len() > 0 && is_sep(s[0]))
    ||| (s.len() >= 3 && is_ascii_letter(s[0]) && s[1] == ':' && is_sep(s[2]))
}

pub fn is_absolute_path(s: &str) -> (r: bool)
    ensures
        r == is_absolute_spec(s@),
{
    let n: usize = s.unicode_len();
    if n == 0 {
        return false;
    }
    let c0 = s.get_char(0);
    if c0 == '/' || c0 == '\\' {
        return true;
    }
    if n >= 3 {
        let c1 = s.get_char(1);
        let c2 = s.get_char(2);
        (('a' <= c0 && c0 <= 'z') || ('A' <= c0 && c0 <= 'Z')) && c1 == ':' && (c2 == '/' || c2
            == '\\')
    } else {
        false
    }
}

/// A base directory joined with a further path: the further path alone when
/// it is absolute; otherwise the base, a separator where the base does not
/// already end in one, and the path.
pub open spec fn join_path_spec(base: Seq<char>, rel: Seq<char>) -> Seq<char> {
    if is_absolute_spec(rel) {
        rel
    } else if base.len() > 0 && is_sep(base.last()) {
        base + rel
    } else {
        base + seq!['/'] + rel
    }
}

pub fn join_path(base: &str, rel: &str) -> (r: String)
    ensures
        r@ == join_path_spec(base@, rel@),
{
    if is_absolute_path(rel) {
        return String::from_str(rel);
    }
    let bn: usize = base.unicode_len();
    let mut r = String::from_str(base);
    if bn == 0 || !is_sep_char(base.get_char(bn - 1)) {
        r.append("/");
        proof {
            reveal_strlit("/");
            assert(("/")@ =~= seq!['/']);
        }
    }
    r.append(rel);
    proof {
        assert(r@ =~= join_path_spec(base@, rel@));
    }
    r
}

/// The directory all relative paths are resolved against, derived from the
/// directory of the backend's own manifest: three levels above it.
pub fn project_root(manifest_dir: &str) -> (r: String)
    ensures
        r@ == join_path_spec(manifest_dir@, "../../.."@),
{
    join_path(manifest_dir, "../../..")
}

/// An input path made absolute: itself when already absolute, else joined
/// onto the project root.
pub fn resolve_project_path(root: &str, input: &str) -> (r: String)
    ensures
        r@ == join_path_spec(root@, input@),
{
    join_path(root, input)
}

/// The path with every backslash replaced by a forward slash.
pub open spec fn fwd_slashes(s: Seq<char>) -> Seq<char> {
    s.map_values(
        |c: char|
            if c == '\\' {
                '/'
            } else {
                c
            },
    )
}

/// A copy of the path with separators normalized to forward slashes.
pub fn normalize_separators(s: &str) -> (r: String)
    ensures
        r@ == fwd_slashes(s@),
{
    let n: usize = s.unicode_len();
    let mut out = String::new();
    let mut i: usize = 0;
    proof {
        assert(out@ =~= fwd_slashes(s@.take(0)));
    }
    while i < n
        invariant
            i <= n,
            n == s@.len(),
            out@ == fwd_slashes(s@.take(i as int)),
        decreases n - i,
    {
        let c = s.get_char(i);
        let ghost prev = out@;
        if c == '\\' {
            out.append("/");
            proof {
                reveal_strlit("/");
                assert(("/")@ =~= seq!['/']);
            }
        } else {
            let piece = s.substring_char(i, i + 1);
            out.append(piece);
            proof {
                assert(s@.subrange(i as int, i + 1) =~= seq![s@[i as int]]);
            }
        }
        proof {
            assert(out@ =~= fwd_slashes(s@.take(i + 1)));
        }
        i = i + 1;
    }
    proof {
        assert(s@.take(n as int) =~= s@);
    }
    out
}

/// The position of the last separator of a path, or -1 where it has none.
pub open spec fn last_sep_index(s: Seq<char>) -> int
    decreases s.len(),
{
    if s.len() == 0 {
        -1
    } else if is_sep(s.last()) {
        s.len() - 1
    } else {
        last_sep_index(s.drop_last())
    }
}

pub proof fn lemma_last_sep_index_range(s: Seq<char>)
    ensures
        -1 <= last_sep_index(s) < s.len(),
    decreases s.len(),
{
    if s.len() > 0 && !is_sep(s.last()) {
        lemma_last_sep_index_range(s.drop_last());
    }
}

/// Finds the last separator of a path.
pub fn last_sep_pos(s: &str) -> (r: Option<usize>)
    ensures
        match r {
            Option::Some(k) => last_sep_index(s@) == k as int && k < s@.len(),
            Option::None => last_sep_index(s@) == -1,
        },
{
    let n: usize = s.unicode_len();
    let mut j: usize = n;
    proof {
        assert(s@.take(n as int) =~= s@);
    }
    loop
        invariant
            j <= n,
            n == s@.len(),
            last_sep_index(s@) == last_sep_index(s@.take(j as int)),
        decreases j,
    {
        if j == 0 {
            proof {
                assert(s@.take(0) =~= Seq::<char>::empty());
            }
            return None;
        }
        let c = s.get_char(j - 1);
        proof {
            assert(s@.take(j as int).last() == s@[j - 1]);
            assert(s@.take(j as int).drop_last() =~= s@.take(j - 1));
        }
        if is_sep_char(c) {
            return Some(j - 1);
        }
        j = j - 1;
    }
}

/// The directory part of a path: what stands before its last separator; the
/// leading separator itself where that separator opens the path; nothing
/// where the path has no separator at all.
pub open spec fn parent_path_spec(s: Seq<char>) -> Option<Seq<char>> {
    let k = last_sep_index(s);
    if k < 0 {
        Option::None
    } else if k == 0 {
        Option::Some(s.take(1))
    } else {
        Option::Some(s.take(k))
    }
}

pub fn parent_path(s: &str) -> (r: Option<String>)
    ensures
        match parent_path_spec(s@) {
            Option::Some(p) => r matches Some(t) && t@ == p,
            Option::None => r is None,
        },
{
    match last_sep_pos(s) {
        Option::None => Option::None,
        Option::Some(k) => {
            if k == 0 {
                Option::Some(String::from_str(s.substring_char(0, 1)))
            } else {
                Option::Some(String::from_str(s.substring_char(0, k)))
            }
        },
    }
}

/// How a path relates to a root prefix: the remainder after the root and one
/// separator where the path lies below the root, the empty string for the
/// root itself, and nothing otherwise.
pub open spec fn strip_prefix_path_spec(p: Seq<char>, root: Seq<char>) -> Option<Seq<char>> {
    if p == root {
        Option::Some(Seq::empty())
    } else if has_prefix(p, root) && p.len() > root.len() && is_sep(p[root.len() as int]) {
        Option::Some(p.skip(root.len() + 1 as int))
    } else {
        Option::None
    }
}

pub fn strip_path_prefix(p: &str, root: &str) -> (r: Option<String>)
    ensures
        match strip_prefix_path_spec(p@, root@) {
            Option::Some(rel) => r matches Some(t) && t@ == rel,
            Option::None => r is None,
        },
{
    match strip_prefix(p, root) {
        Option::None => {
            proof {
                if p@ == root@ {
                    assert(p@.take(root@.len() as int) =~= root@);
                }
            }
            Option::None
        },
        Option::Some(rest) => {
            let rn: usize = rest.unicode_len();
            if rn == 0 {
                proof {
                    assert(p@.take(root@.len() as int) =~= p@);
                }
                Option::Some(String::new())
            } else {
                let c = rest.as_str().get_char(0);
                proof {
                    assert(rest@[0] == p@[root@.len() as int]);
                    assert(p@.len() > root@.len());
                    assert(p@ != root@);
                }
                if is_sep_char(c) {
                    proof {
                        assert(rest@.subrange(1, rn as int) =~= p@.skip(root@.len() + 1 as int));
                    }
                    Option::Some(String::from_str(rest.as_str().substring_char(1, rn)))
                } else {
                    Option::None
                }
            }
        },
    }
}

/// A listed path as handed back to the front end: relative to the root where
/// it lies under it, and with forward slashes throughout.
pub open spec fn rel_display_spec(p: Seq<char>, root: Seq<char>) -> Seq<char> {
    fwd_slashes(
        match strip_prefix_path_spec(p, root) {
            Option::Some(rel) => rel,
            Option::None => p,
        },
    )
}

pub fn rel_display(p: &str, root: &str) -> (r: String)
    ensures
        r@ == rel_display_spec(p@, root@),
{
    match strip_path_prefix(p, root) {
        Option::Some(rel) => normalize_separators(rel.as_str()),
        Option::None => normalize_separators(p),
    }
}

} // verus!
