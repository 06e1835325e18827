//! Listing the PNG files below a directory: filtering a recursive file
//! listing by extension, sorting it, and presenting each path relative to
//! the project root with forward slashes.

use vstd::prelude::*;
use vstd::string::StrSliceExecFns;
use vstd::string::StringExecFns;
use crate::text::{lex_lt, str_lt, str_views, lemma_str_views_push};
use crate::paths::{
    is_sep, last_sep_index, last_sep_pos, lemma_last_sep_index_range, rel_display_spec,
    rel_display,
};

verus! {

/// The position of the last dot of a file name, or -1 where it has none.
pub open spec fn last_dot_index(s: Seq<char>) -> int
    decreases s.len(),
{
    if s.len() == 0 {
        -1
    } else if s.last() == '.' {
        s.len() - 1
    } else {
        last_dot_index(s.drop_last())
    }
}

proof fn lemma_last_dot_index_range(s: Seq<char>)
    ensures
        -1 <= last_dot_index(s) < s.len(),
    decreases s.len(),
{
    if s.len() > 0 && s.last() != '.' {
        lemma_last_dot_index_range(s.drop_last());
    }
}

fn last_dot_pos(s: &str) -> (r: Option<usize>)
    ensures
        match r {
            Option::Some(k) => last_dot_index(s@) == k as int && k < s@.len(),
            Option::None => last_dot_index(s@) == -1,
        },
{
    let n: usize = s.unicode_len();
    let mut j: usize = n;
    proof {
        assert(s@.take(n as int) =~= s@);
    }
    loop
        invariant
            j <= n,
            n == s@.len(),
            last_dot_index(s@) == last_dot_index(s@.take(j as int)),
        decreases j,
    {
        if j == 0 {
            proof {
                assert(s@.take(0) =~= Seq::<char>::empty());
            }
            return None;
        }
        let c = s.get_char(j - 1);
        proof {
            assert(s@.take(j as int).last() == s@[j - 1]);
            assert(s@.take(j as int).drop_last() =~= s@.take(j - 1));
        }
        if c == '.' {
            return Some(j - 1);
        }
        j = j - 1;
    }
}

/// The final component of a path: what follows its last separator.
pub open spec fn last_component(p: Seq<char>) -> Seq<char> {
    p.skip(last_sep_index(p) + 1)
}

/// The three characters of the extension that marks a PNG file, in any case
/// mix.
pub open spec fn ext_is_png(e: Seq<char>) -> bool {
    e.len() == 3 && (e[0] == 'p' || e[0] == 'P') && (e[1] == 'n' || e[1] == 'N') && (e[2] == 'g'
        || e[2] == 'G')
}

/// Whether a path names a PNG file: its final component has an extension
/// after a dot that does not open the component, and the extension is "png"
/// in any case mix.
pub open spec fn has_png_ext(p: Seq<char>) -> bool {
    let c = last_component(p);
    let k = last_dot_index(c);
    k > 0 && ext_is_png(c.skip(k + 1))
}

pub fn has_png_extension(p: &str) -> (r: bool)
    ensures
        r == has_png_ext(p@),
{
    let n: usize = p.unicode_len();
    let start: usize = match last_sep_pos(p) {
        Option::Some(k) => k + 1,
        Option::None => 0,
    };
    proof {
        lemma_last_sep_index_range(p@);
        assert(p@.subrange(start as int, n as int) =~= last_component(p@));
    }
    let comp = p.substring_char(start, n);
    match last_dot_pos(comp) {
        Option::None => false,
        Option::Some(d) => {
            if d == 0 {
                false
            } else {
                let cn: usize = comp.unicode_len();
                if cn - d != 4 {
                    proof {
                        assert(comp@.skip(d + 1).len() != 3);
                    }
                    false
                } else {
                    let c0 = comp.get_char(d + 1);
                    let c1 = comp.get_char(d + 2);
                    let c2 = comp.get_char(d + 3);
                    proof {
                        let e = comp@.skip(d + 1);
                        assert(e.len() == 3);
                        assert(e[0] == comp@[d + 1]);
                        assert(e[1] == comp@[d + 2]);
                        assert(e[2] == comp@[d + 3]);
                    }
                    (c0 == 'p' || c0 == 'P') && (c1 == 'n' || c1 == 'N') && (c2 == 'g' || c2
                        == 'G')
                }
            }
        },
    }
}

/// The paths of a listing that name PNG files, in their original order.
pub open spec fn png_filter(ps: Seq<Seq<char>>) -> Seq<Seq<char>>
    decreases ps.len(),
{
    if ps.len() == 0 {
        Seq::empty()
    } else {
        png_filter(ps.drop_last()) + (if has_png_ext(ps.last()) {
            seq![ps.last()]
        } else {
            Seq::<Seq<char>>::empty()
        })
    }
}

/// Keeps the paths of a recursive file listing that name PNG files.
pub fn collect_png_files(files: &Vec<String>) -> (r: Vec<String>)
    ensures
        str_views(r@) == png_filter(str_views(files@)),
{
    let ghost fv = str_views(files@);
    let mut out: Vec<String> = Vec::new();
    let mut i: usize = 0;
    proof {
        assert(fv.take(0) =~= Seq::<Seq<char>>::empty());
        assert(str_views(out@) =~= png_filter(fv.take(0)));
    }
    while i < files.len()
        invariant
            i <= files@.len(),
            fv == str_views(files@),
            str_views(out@) == png_filter(fv.take(i as int)),
        decreases files@.len() - i,
    {
        proof {
            assert(fv[i as int] == files@[i as int]@);
            assert(fv.take(i + 1).drop_last() =~= fv.take(i as int));
            assert(fv.take(i + 1).last() == fv[i as int]);
        }
        let ghost prev = str_views(out@);
        if has_png_extension(files[i].as_str()) {
            let item = files[i].clone();
            proof {
                lemma_str_views_push(out@, item);
                assert(prev.push(item@) =~= prev + seq![item@]);
            }
            out.push(item);
        } else {
            proof {
                assert(prev + Seq::<Seq<char>>::empty() =~= prev);
            }
        }
        i = i + 1;
    }
    proof {
        assert(fv.take(files@.len() as int) =~= fv);
    }
    out
}

/// Where a path comes to stand in a sorted list: before the first entry that
/// does not sort below it.
pub open spec fn insert_le(v: Seq<Seq<char>>, s: Seq<char>) -> Seq<Seq<char>>
    decreases v.len(),
{
    if v.len() == 0 {
        seq![s]
    } else if lex_lt(v[0], s) {
        seq![v[0]] + insert_le(v.drop_first(), s)
    } else {
        seq![s] + v
    }
}

/// A listing sorted by inserting each path in turn.
pub open spec fn sort_paths(v: Seq<Seq<char>>) -> Seq<Seq<char>>
    decreases v.len(),
{
    if v.len() == 0 {
        Seq::empty()
    } else {
        insert_le(sort_paths(v.drop_last()), v.last())
    }
}

proof fn lemma_insert_le_at(v: Seq<Seq<char>>, s: Seq<char>, i: int)
    requires
        0 <= i <= v.len(),
        forall|k: int| 0 <= k < i ==> lex_lt(#[trigger] v[k], s),
        i == v.len() || !lex_lt(v[i], s),
    ensures
        insert_le(v, s) == v.take(i) + seq![s] + v.skip(i),
    decreases i,
{
    if i == 0 {
        if v.len() == 0 {
            assert(insert_le(v, s) =~= v.take(0) + seq![s] + v.skip(0));
        } else {
            assert(!lex_lt(v[0], s));
            assert(insert_le(v, s) =~= v.take(0) + seq![s] + v.skip(0));
        }
    } else {
        let d = v.drop_first();
        assert(forall|k: int| 0 <= k < i - 1 ==> #[trigger] d[k] == v[k + 1]);
        lemma_insert_le_at(d, s, i - 1);
        assert(insert_le(v, s) =~= v.take(i) + seq![s] + v.skip(i));
    }
}

/// Inserts a path into a sorted list at its place.
fn insert_path_sorted(v: &mut Vec<String>, s: String)
    ensures
        str_views(final(v)@) == insert_le(str_views(old(v)@), s@),
{
    let ghost ov = str_views(old(v)@);
    let n = v.len();
    let mut i: usize = 0;
    loop
        invariant
            i <= n,
            n == v@.len(),
            v@ == old(v)@,
            ov == str_views(v@),
            forall|k: int| 0 <= k < i ==> lex_lt(#[trigger] ov[k], s@),
        ensures
            i <= n,
            v@ == old(v)@,
            ov == str_views(v@),
            forall|k: int| 0 <= k < i ==> lex_lt(#[trigger] ov[k], s@),
            i == n || !lex_lt(ov[i as int], s@),
        decreases n - i,
    {
        if i >= n {
            break;
        }
        proof {
            assert(ov[i as int] == v@[i as int]@);
        }
        if !str_lt(v[i].as_str(), s.as_str()) {
            break;
        }
        i = i + 1;
    }
    proof {
        lemma_insert_le_at(ov, s@, i as int);
        old(v)@.insert_ensures(i as int, s);
    }
    v.insert(i, s);
    proof {
        assert(str_views(v@) =~= ov.take(i as int) + seq![s@] + ov.skip(i as int));
    }
}

/// Sorts a listing of paths.
fn sort_path_list(files: Vec<String>) -> (r: Vec<String>)
    ensures
        str_views(r@) == sort_paths(str_views(files@)),
{
    let ghost fv = str_views(files@);
    let mut acc: Vec<String> = Vec::new();
    let mut i: usize = 0;
    proof {
        assert(fv.take(0) =~= Seq::<Seq<char>>::empty());
        assert(str_views(acc@) =~= sort_paths(fv.take(0)));
    }
    while i < files.len()
        invariant
            i <= files@.len(),
            fv == str_views(files@),
            str_views(acc@) == sort_paths(fv.take(i as int)),
        decreases files@.len() - i,
    {
        proof {
            assert(fv[i as int] == files@[i as int]@);
            assert(fv.take(i + 1).drop_last() =~= fv.take(i as int));
            assert(fv.take(i + 1).last() == fv[i as int]);
        }
        let item = files[i].clone();
        insert_path_sorted(&mut acc, item);
        i = i + 1;
    }
    proof {
        assert(fv.take(files@.len() as int) =~= fv);
    }
    acc
}

/// The PNG files below a directory as handed to the front end: nothing where
/// the directory does not exist; otherwise the matching paths of its
/// recursive listing, sorted, each shown relative to the project root with
/// forward slashes.
pub open spec fn png_listing_spec(root: Seq<char>, dir_exists: bool, files: Seq<Seq<char>>) -> Seq<
    Seq<char>,
> {
    if !dir_exists {
        Seq::empty()
    } else {
        sort_paths(png_filter(files)).map_values(|p: Seq<char>| rel_display_spec(p, root))
    }
}

/// Lists the PNG files of a directory's recursive listing for the front end.
pub fn list_png_files(root: &str, dir_exists: bool, files: &Vec<String>) -> (r: Vec<String>)
    ensures
        str_views(r@) == png_listing_spec(root@, dir_exists, str_views(files@)),
{
    if !dir_exists {
        let r: Vec<String> = Vec::new();
        proof {
            assert(str_views(r@) =~= png_listing_spec(root@, dir_exists, str_views(files@)));
        }
        return r;
    }
    let pngs = collect_png_files(files);
    let sorted = sort_path_list(pngs);
    let ghost sv = str_views(sorted@);
    let mut out: Vec<String> = Vec::new();
    let mut i: usize = 0;
    proof {
        assert(str_views(out@) =~= sv.map_values(|p: Seq<char>| rel_display_spec(p, root@)).take(
            0,
        ));
    }
    while i < sorted.len()
        invariant
            i <= sorted@.len(),
            sv == str_views(sorted@),
            str_views(out@) == sv.map_values(|p: Seq<char>| rel_display_spec(p, root@)).take(
                i as int,
            ),
        decreases sorted@.len() - i,
    {
        proof {
            assert(sv[i as int] == sorted@[i as int]@);
        }
        let shown = rel_display(sorted[i].as_str(), root);
        proof {
            lemma_str_views_push(out@, shown);
            let mapped = sv.map_values(|p: Seq<char>| rel_display_spec(p, root@));
            assert(mapped.take(i as int).push(shown@) =~= mapped.take(i + 1));
        }
        out.push(shown);
        i = i + 1;
    }
    proof {
        let mapped = sv.map_values(|p: Seq<char>| rel_display_spec(p, root@));
        assert(mapped.take(sorted@.len() as int) =~= mapped);
    }
    out
}

} // verus!
