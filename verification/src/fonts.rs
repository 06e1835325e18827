//! System font discovery and normalization: parsing the per-platform output
//! of the host's font utility, and turning raw names into a sorted,
//! duplicate-free, non-empty list with a fixed fallback.

use vstd::prelude::*;
use vstd::string::StrSliceExecFns;
use vstd::string::StringExecFns;
use crate::text::{
    lex_lt, lemma_lex_connected, lemma_lex_trans, trim_spec, trim, lemma_trim_idempotent,
    str_views, str_lt, is_space_char, has_prefix, strip_prefix, split_on, split_char, lines_spec,
    split_lines, remove_all, remove_char, lemma_str_views_push,
};
use crate::command::{CommandOutput, spawn_failure_spec, spawn_failure_message};

verus! {

/// The fixed list of common font names that discovery falls back to, in
/// lexicographic order.
pub open spec fn fallback_fonts() -> Seq<Seq<char>> {
    seq![
        "Apple SD Gothic Neo"@,
        "Arial"@,
        "Helvetica Neue"@,
        "Inter"@,
        "Noto Sans"@,
        "Roboto"@,
        "SF Pro"@,
        "SF Pro Display"@,
        "SF Pro Text"@,
    ]
}

/// Every entry of the list sorts strictly before every later one; such a list
/// is both sorted and duplicate-free.
pub open spec fn strictly_sorted(v: Seq<Seq<char>>) -> bool {
    forall|i: int, j: int| 0 <= i < j < v.len() ==> lex_lt(v[i], v[j])
}

/// A usable font name: non-empty and already trimmed.
pub open spec fn is_normal_name(t: Seq<char>) -> bool {
    t.len() > 0 && trim_spec(t) == t
}

/// Whether `t` is among the usable names of a raw list: the trimmed form of
/// some entry, and non-empty.
pub open spec fn normal_name_of(raw: Seq<Seq<char>>, t: Seq<char>) -> bool {
    t.len() > 0 && exists|i: int| 0 <= i < raw.len() && trim_spec(raw[i]) == t
}

/// What normalization owes: a sorted, duplicate-free list holding exactly the
/// usable names of the raw list, or the fallback list where there are none.
pub open spec fn is_normalized_of(r: Seq<Seq<char>>, raw: Seq<Seq<char>>) -> bool {
    &&& strictly_sorted(r)
    &&& r.len() > 0
    &&& (forall|t: Seq<char>| r.contains(t) ==> is_normal_name(t))
    &&& if exists|t: Seq<char>| normal_name_of(raw, t) {
        forall|t: Seq<char>| r.contains(t) <==> normal_name_of(raw, t)
    } else {
        r == fallback_fonts()
    }
}

proof fn lemma_lex_from_diff(a: Seq<char>, b: Seq<char>, k: int)
    requires
        0 <= k < a.len(),
        k < b.len(),
        forall|m: int| 0 <= m < k ==> a[m] == b[m],
        a[k] < b[k],
    ensures
        lex_lt(a, b),
    decreases k,
{
    if k > 0 {
        assert(a[0] == b[0]);
        assert(forall|m: int| 0 <= m < k - 1 ==> a.drop_first()[m] == b.drop_first()[m]);
        assert(a.drop_first()[k - 1] == a[k]);
        assert(b.drop_first()[k - 1] == b[k]);
        lemma_lex_from_diff(a.drop_first(), b.drop_first(), k - 1);
    }
}

proof fn lemma_lex_from_prefix(a: Seq<char>, b: Seq<char>)
    requires
        a.len() < b.len(),
        forall|m: int| 0 <= m < a.len() ==> a[m] == b[m],
    ensures
        lex_lt(a, b),
    decreases a.len(),
{
    if a.len() > 0 {
        assert(a[0] == b[0]);
        assert(forall|m: int|
            0 <= m < a.drop_first().len() ==> a.drop_first()[m] == b.drop_first()[m]);
        lemma_lex_from_prefix(a.drop_first(), b.drop_first());
    }
}

proof fn lemma_adjacent_lt(v: Seq<Seq<char>>, i: int, j: int)
    requires
        forall|k: int| 0 <= k < v.len() - 1 ==> lex_lt(#[trigger] v[k], v[k + 1]),
        0 <= i < j < v.len(),
    ensures
        lex_lt(v[i], v[j]),
    decreases j - i,
{
    if i + 1 == j {
        assert(lex_lt(v[i], v[i + 1]));
    } else {
        lemma_adjacent_lt(v, i, j - 1);
        assert(lex_lt(v[j - 1], v[j - 1 + 1]));
        lemma_lex_trans(v[i], v[j - 1], v[j]);
    }
}

proof fn lemma_trimmed_fixed(s: Seq<char>)
    requires
        s.len() > 0,
        !is_space_char(s[0]),
        !is_space_char(s.last()),
    ensures
        is_normal_name(s),
{
    assert(crate::text::trim_start_spec(s) == s);
    assert(crate::text::trim_end_spec(s) == s);
}

/// The fallback list is sorted, duplicate-free, and holds only usable names.
pub proof fn lemma_fallback_fonts_wf()
    ensures
        strictly_sorted(fallback_fonts()),
        fallback_fonts().len() == 9,
        forall|t: Seq<char>| fallback_fonts().contains(t) ==> is_normal_name(t),
{
    reveal_strlit("Apple SD Gothic Neo");
    reveal_strlit("Arial");
    reveal_strlit("Helvetica Neue");
    reveal_strlit("Inter");
    reveal_strlit("Noto Sans");
    reveal_strlit("Roboto");
    reveal_strlit("SF Pro");
    reveal_strlit("SF Pro Display");
    reveal_strlit("SF Pro Text");
    let f = fallback_fonts();
    lemma_lex_from_diff(f[0], f[1], 1);
    lemma_lex_from_diff(f[1], f[2], 0);
    lemma_lex_from_diff(f[2], f[3], 0);
    lemma_lex_from_diff(f[3], f[4], 0);
    lemma_lex_from_diff(f[4], f[5], 0);
    lemma_lex_from_diff(f[5], f[6], 0);
    lemma_lex_from_prefix(f[6], f[7]);
    lemma_lex_from_diff(f[7], f[8], 7);
    assert forall|i: int, j: int| 0 <= i < j < f.len() implies lex_lt(f[i], f[j]) by {
        lemma_adjacent_lt(f, i, j);
    }
    assert forall|t: Seq<char>| f.contains(t) implies is_normal_name(t) by {
        let i = choose|i: int| 0 <= i < f.len() && f[i] == t;
        lemma_trimmed_fixed(f[i]);
    }
}

/// The hardcoded list of common font names used when live discovery fails or
/// yields nothing.
pub fn fallback_font_list() -> (r: Vec<String>)
    ensures
        str_views(r@) == fallback_fonts(),
{
    let mut r: Vec<String> = Vec::new();
    r.push(String::from_str("Apple SD Gothic Neo"));
    r.push(String::from_str("Arial"));
    r.push(String::from_str("Helvetica Neue"));
    r.push(String::from_str("Inter"));
    r.push(String::from_str("Noto Sans"));
    r.push(String::from_str("Roboto"));
    r.push(String::from_str("SF Pro"));
    r.push(String::from_str("SF Pro Display"));
    r.push(String::from_str("SF Pro Text"));
    proof {
        assert(str_views(r@) =~= fallback_fonts());
    }
    r
}

/// Inserts a name into a sorted, duplicate-free list, keeping it sorted and
/// duplicate-free.
fn insert_sorted(v: &mut Vec<String>, s: String)
    requires
        strictly_sorted(str_views(old(v)@)),
    ensures
        strictly_sorted(str_views(final(v)@)),
        forall|t: Seq<char>|
            str_views(final(v)@).contains(t) <==> (str_views(old(v)@).contains(t) || t == s@),
{
    let ghost ov = str_views(old(v)@);
    let n = v.len();
    let mut i: usize = 0;
    loop
        invariant
            i <= n,
            n == v@.len(),
            v@ == old(v)@,
            ov == str_views(v@),
            forall|k: int| 0 <= k < i ==> lex_lt(ov[k], s@),
        ensures
            i <= n,
            v@ == old(v)@,
            ov == str_views(v@),
            forall|k: int| 0 <= k < i ==> lex_lt(ov[k], s@),
            i == n || !lex_lt(ov[i as int], s@),
        decreases n - i,
    {
        if i >= n {
            break;
        }
        proof {
            assert(ov[i as int] == v@[i as int]@);
        }
        if !str_lt(v[i].as_str(), s.as_str()) {
            break;
        }
        i = i + 1;
    }
    if i < n {
        if !str_lt(s.as_str(), v[i].as_str()) {
            proof {
                lemma_lex_connected(s@, ov[i as int]);
                assert(s@ == ov[i as int]);
                assert(ov.contains(s@));
            }
            return;
        }
    }
    proof {
        old(v)@.insert_ensures(i as int, s);
    }
    v.insert(i, s);
    proof {
        let nv = str_views(v@);
        assert(nv.len() == ov.len() + 1);
        assert(forall|k: int| 0 <= k < i ==> nv[k] == ov[k]);
        assert(forall|k: int| i <= k < ov.len() ==> nv[k + 1] == ov[k]);
        assert(nv[i as int] == s@);
        assert forall|a: int, b: int| 0 <= a < b < nv.len() implies lex_lt(nv[a], nv[b]) by {
            if b < i {
                assert(lex_lt(ov[a], ov[b]));
            } else if a < i && b == i {
                assert(lex_lt(ov[a], s@));
            } else if a < i && b > i {
                assert(nv[b] == ov[b - 1]);
                assert(lex_lt(ov[a], ov[b - 1]));
            } else if a == i {
                assert(nv[b] == ov[b - 1]);
                if b - 1 == i {
                    assert(lex_lt(s@, ov[i as int]));
                } else {
                    assert(lex_lt(ov[i as int], ov[b - 1]));
                    lemma_lex_trans(s@, ov[i as int], ov[b - 1]);
                }
            } else {
                assert(nv[a] == ov[a - 1]);
                assert(nv[b] == ov[b - 1]);
                assert(lex_lt(ov[a - 1], ov[b - 1]));
            }
        }
        assert forall|t: Seq<char>| nv.contains(t) implies (ov.contains(t) || t == s@) by {
            let k = choose|k: int| 0 <= k < nv.len() && nv[k] == t;
            if k < i {
                assert(ov[k] == t);
            } else if k > i {
                assert(ov[k - 1] == t);
            }
        }
        assert forall|t: Seq<char>| ov.contains(t) || t == s@ implies nv.contains(t) by {
            if ov.contains(t) {
                let k = choose|k: int| 0 <= k < ov.len() && ov[k] == t;
                if k < i {
                    assert(nv[k] == t);
                } else {
                    assert(nv[k + 1] == t);
                }
            } else {
                assert(nv[i as int] == t);
            }
        }
    }
}

/// Trims every raw name, drops the empty results, removes duplicates, and
/// sorts what remains; where nothing usable remains, substitutes the fallback
/// list.
pub fn normalize_font_list(fonts: Vec<String>) -> (r: Vec<String>)
    ensures
        is_normalized_of(str_views(r@), str_views(fonts@)),
{
    let ghost fv = str_views(fonts@);
    let mut acc: Vec<String> = Vec::new();
    let mut idx: usize = 0;
    while idx < fonts.len()
        invariant
            idx <= fonts@.len(),
            fv == str_views(fonts@),
            strictly_sorted(str_views(acc@)),
            forall|t: Seq<char>|
                str_views(acc@).contains(t) <==> (t.len() > 0 && exists|i: int|
                    0 <= i < idx && trim_spec(fv[i]) == t),
        decreases fonts@.len() - idx,
    {
        let ghost before = str_views(acc@);
        let t = trim(fonts[idx].as_str());
        let tn = t.unicode_len();
        if tn > 0 {
            insert_sorted(&mut acc, t);
        }
        proof {
            assert forall|u: Seq<char>|
                str_views(acc@).contains(u) implies (u.len() > 0 && exists|i: int|
                0 <= i < idx + 1 && trim_spec(fv[i]) == u) by {
                if tn > 0 && u == t@ {
                    assert(trim_spec(fv[idx as int]) == u);
                } else {
                    assert(before.contains(u));
                }
            }
            assert forall|u: Seq<char>|
                u.len() > 0 && (exists|i: int| 0 <= i < idx + 1 && trim_spec(fv[i]) == u) implies
                str_views(acc@).contains(u) by {
                let i = choose|i: int| 0 <= i < idx + 1 && trim_spec(fv[i]) == u;
                if i < idx {
                    assert(before.contains(u));
                    if tn == 0 {
                        assert(str_views(acc@) == before);
                    }
                }
            }
        }
        idx = idx + 1;
    }
    if acc.len() == 0 {
        proof {
            assert(forall|t: Seq<char>| !str_views(acc@).contains(t));
            assert forall|t: Seq<char>| !normal_name_of(fv, t) by {
                if normal_name_of(fv, t) {
                    assert(str_views(acc@).contains(t));
                }
            }
            lemma_fallback_fonts_wf();
        }
        fallback_font_list()
    } else {
        proof {
            let first = str_views(acc@)[0];
            assert(str_views(acc@).contains(first));
            assert(normal_name_of(fv, first));
            assert forall|t: Seq<char>| str_views(acc@).contains(t) implies is_normal_name(t) by {
                let i = choose|i: int| 0 <= i < fv.len() && trim_spec(fv[i]) == t;
                lemma_trim_idempotent(fv[i]);
            }
        }
        acc
    }
}

/// The font names on one line of macOS font metadata output: the value after
/// a "Full Name:" or "Family:" label, trimmed.
pub open spec fn mac_line_names(l: Seq<char>) -> Seq<Seq<char>> {
    let t = trim_spec(l);
    if has_prefix(t, "Full Name:"@) {
        seq![trim_spec(t.skip("Full Name:"@.len() as int))]
    } else if has_prefix(t, "Family:"@) {
        seq![trim_spec(t.skip("Family:"@.len() as int))]
    } else {
        Seq::empty()
    }
}

/// All font names of macOS font metadata output, line by line.
pub open spec fn mac_names(ls: Seq<Seq<char>>) -> Seq<Seq<char>>
    decreases ls.len(),
{
    if ls.len() == 0 {
        Seq::empty()
    } else {
        mac_names(ls.drop_last()) + mac_line_names(ls.last())
    }
}

/// Extracts the raw font names from macOS font metadata output.
pub fn parse_mac_fonts(raw: &str) -> (r: Vec<String>)
    ensures
        str_views(r@) == mac_names(lines_spec(raw@)),
{
    let lines = split_lines(raw);
    let ghost lv = str_views(lines@);
    let mut out: Vec<String> = Vec::new();
    let mut i: usize = 0;
    proof {
        assert(lv.take(0) =~= Seq::<Seq<char>>::empty());
        assert(str_views(out@) =~= mac_names(lv.take(0)));
    }
    while i < lines.len()
        invariant
            i <= lines@.len(),
            lv == str_views(lines@),
            str_views(out@) == mac_names(lv.take(i as int)),
        decreases lines@.len() - i,
    {
        proof {
            assert(lv[i as int] == lines@[i as int]@);
            assert(lv.take(i + 1).drop_last() =~= lv.take(i as int));
            assert(lv.take(i + 1).last() == lv[i as int]);
        }
        let t = trim(lines[i].as_str());
        let ghost prev = str_views(out@);
        match strip_prefix(t.as_str(), "Full Name:") {
            Option::Some(name) => {
                let nm = trim(name.as_str());
                proof {
                    lemma_str_views_push(out@, nm);
                    assert(prev.push(nm@) =~= prev + seq![nm@]);
                }
                out.push(nm);
            },
            Option::None => {
                match strip_prefix(t.as_str(), "Family:") {
                    Option::Some(name) => {
                        let nm = trim(name.as_str());
                        proof {
                            lemma_str_views_push(out@, nm);
                            assert(prev.push(nm@) =~= prev + seq![nm@]);
                        }
                        out.push(nm);
                    },
                    Option::None => {
                        proof {
                            assert(prev + Seq::<Seq<char>>::empty() =~= prev);
                        }
                    },
                }
            },
        }
        i = i + 1;
    }
    proof {
        assert(lv.take(lines@.len() as int) =~= lv);
    }
    out
}

/// The font families on one line of Linux font listing output: the part
/// after the last colon, split at commas, each family trimmed.
pub open spec fn linux_line_names(l: Seq<char>) -> Seq<Seq<char>> {
    split_on(split_on(l, ':').last(), ',').map_values(|f: Seq<char>| trim_spec(f))
}

/// All font families of Linux font listing output, line by line.
pub open spec fn linux_names(ls: Seq<Seq<char>>) -> Seq<Seq<char>>
    decreases ls.len(),
{
    if ls.len() == 0 {
        Seq::empty()
    } else {
        linux_names(ls.drop_last()) + linux_line_names(ls.last())
    }
}

/// Extracts the raw font families from Linux font listing output.
pub fn parse_linux_fonts(raw: &str) -> (r: Vec<String>)
    ensures
        str_views(r@) == linux_names(lines_spec(raw@)),
{
    let lines = split_lines(raw);
    let ghost lv = str_views(lines@);
    let mut out: Vec<String> = Vec::new();
    let mut i: usize = 0;
    proof {
        assert(lv.take(0) =~= Seq::<Seq<char>>::empty());
        assert(str_views(out@) =~= linux_names(lv.take(0)));
    }
    while i < lines.len()
        invariant
            i <= lines@.len(),
            lv == str_views(lines@),
            str_views(out@) == linux_names(lv.take(i as int)),
        decreases lines@.len() - i,
    {
        proof {
            assert(lv[i as int] == lines@[i as int]@);
        }
        let parts = split_char(lines[i].as_str(), ':');
        let fams_idx = parts.len() - 1;
        proof {
            assert(str_views(parts@)[fams_idx as int] == parts@[fams_idx as int]@);
        }
        let fam_parts = split_char(parts[fams_idx].as_str(), ',');
        let ghost fp = str_views(fam_parts@);
        let ghost line_names = linux_line_names(lv[i as int]);
        proof {
            assert(line_names == fp.map_values(|f: Seq<char>| trim_spec(f)));
        }
        let mut k: usize = 0;
        proof {
            assert(line_names.take(0) =~= Seq::<Seq<char>>::empty());
            assert(str_views(out@) + line_names.take(0) =~= str_views(out@));
        }
        while k < fam_parts.len()
            invariant
                k <= fam_parts@.len(),
                fp == str_views(fam_parts@),
                line_names == fp.map_values(|f: Seq<char>| trim_spec(f)),
                str_views(out@) == linux_names(lv.take(i as int)) + line_names.take(k as int),
            decreases fam_parts@.len() - k,
        {
            proof {
                assert(fp[k as int] == fam_parts@[k as int]@);
            }
            let nm = trim(fam_parts[k].as_str());
            proof {
                lemma_str_views_push(out@, nm);
                assert(line_names[k as int] == trim_spec(fp[k as int]));
                assert((linux_names(lv.take(i as int)) + line_names.take(k as int)).push(nm@)
                    =~= linux_names(lv.take(i as int)) + line_names.take(k + 1));
            }
            out.push(nm);
            k = k + 1;
        }
        proof {
            assert(line_names.take(fam_parts@.len() as int) =~= line_names);
            assert(lv.take(i + 1).drop_last() =~= lv.take(i as int));
            assert(lv.take(i + 1).last() == lv[i as int]);
        }
        i = i + 1;
    }
    proof {
        assert(lv.take(lines@.len() as int) =~= lv);
    }
    out
}

/// The font name on one line of Windows registry output: the line with any
/// byte-order mark removed, cut before the first opening parenthesis, and
/// trimmed.
pub open spec fn win_line_name(l: Seq<char>) -> Seq<char> {
    trim_spec(split_on(remove_all(l, '\u{feff}'), '(')[0])
}

/// All non-empty font names of Windows registry output, line by line.
pub open spec fn win_names(ls: Seq<Seq<char>>) -> Seq<Seq<char>>
    decreases ls.len(),
{
    if ls.len() == 0 {
        Seq::empty()
    } else {
        win_names(ls.drop_last()) + (if win_line_name(ls.last()).len() > 0 {
            seq![win_line_name(ls.last())]
        } else {
            Seq::<Seq<char>>::empty()
        })
    }
}

/// Extracts the raw font names from Windows registry output.
pub fn parse_windows_fonts(raw: &str) -> (r: Vec<String>)
    ensures
        str_views(r@) == win_names(lines_spec(raw@)),
{
    let lines = split_lines(raw);
    let ghost lv = str_views(lines@);
    let mut out: Vec<String> = Vec::new();
    let mut i: usize = 0;
    proof {
        assert(lv.take(0) =~= Seq::<Seq<char>>::empty());
        assert(str_views(out@) =~= win_names(lv.take(0)));
    }
    while i < lines.len()
        invariant
            i <= lines@.len(),
            lv == str_views(lines@),
            str_views(out@) == win_names(lv.take(i as int)),
        decreases lines@.len() - i,
    {
        proof {
            assert(lv[i as int] == lines@[i as int]@);
            assert(lv.take(i + 1).drop_last() =~= lv.take(i as int));
            assert(lv.take(i + 1).last() == lv[i as int]);
        }
        let cleaned = remove_char(lines[i].as_str(), '\u{feff}');
        let parts = split_char(cleaned.as_str(), '(');
        proof {
            assert(str_views(parts@)[0] == parts@[0]@);
        }
        let nm = trim(parts[0].as_str());
        let ghost prev = str_views(out@);
        if nm.unicode_len() > 0 {
            proof {
                lemma_str_views_push(out@, nm);
                assert(prev.push(nm@) =~= prev + seq![nm@]);
            }
            out.push(nm);
        } else {
            proof {
                assert(prev + Seq::<Seq<char>>::empty() =~= prev);
            }
        }
        i = i + 1;
    }
    proof {
        assert(lv.take(lines@.len() as int) =~= lv);
    }
    out
}

/// The host platform a build of the backend targets; discovery spawns a
/// different utility on each, and skips discovery on any other target.
#[derive(Clone, Copy, PartialEq, Eq, Structural, Debug)]
pub enum Platform {
    MacOs,
    Linux,
    Windows,
    Other,
}

/// The program spawned to enumerate fonts on a platform.
pub open spec fn font_query_program(p: Platform) -> Seq<char> {
    match p {
        Platform::MacOs => "system_profiler"@,
        Platform::Linux => "fc-list"@,
        Platform::Windows => "powershell"@,
        Platform::Other => Seq::empty(),
    }
}

/// The raw names that a platform's utility output yields, before
/// normalization.
pub open spec fn raw_font_names(p: Platform, out: Seq<char>) -> Seq<Seq<char>> {
    match p {
        Platform::MacOs => mac_names(lines_spec(out)),
        Platform::Linux => linux_names(lines_spec(out)),
        Platform::Windows => win_names(lines_spec(out)),
        Platform::Other => Seq::empty(),
    }
}

/// Runs discovery over what the host reported of the platform's font
/// utility: parses and normalizes its output on success, reports its error
/// output on failure, and goes straight to the fallback list on a platform
/// without a utility.
pub fn collect_system_fonts(platform: Platform, query: Result<CommandOutput, String>) -> (r:
    Result<Vec<String>, String>)
    ensures
        platform is Other ==> (r matches Ok(v) && str_views(v@) == fallback_fonts()),
        !(platform is Other) ==> match query {
            Result::Ok(out) => {
                if out.success {
                    r matches Ok(v) && is_normalized_of(
                        str_views(v@),
                        raw_font_names(platform, out.stdout@),
                    )
                } else {
                    r matches Err(m) && m@ == out.stderr@
                }
            },
            Result::Err(e) => r matches Err(m) && m@ == spawn_failure_spec(
                font_query_program(platform),
                e@,
            ),
        },
{
    match platform {
        Platform::Other => Result::Ok(fallback_font_list()),
        Platform::MacOs => match query {
            Result::Err(e) => Result::Err(spawn_failure_message("system_profiler", e.as_str())),
            Result::Ok(out) => {
                if out.success {
                    Result::Ok(normalize_font_list(parse_mac_fonts(out.stdout.as_str())))
                } else {
                    Result::Err(out.stderr)
                }
            },
        },
        Platform::Linux => match query {
            Result::Err(e) => Result::Err(spawn_failure_message("fc-list", e.as_str())),
            Result::Ok(out) => {
                if out.success {
                    Result::Ok(normalize_font_list(parse_linux_fonts(out.stdout.as_str())))
                } else {
                    Result::Err(out.stderr)
                }
            },
        },
        Platform::Windows => match query {
            Result::Err(e) => Result::Err(spawn_failure_message("powershell", e.as_str())),
            Result::Ok(out) => {
                if out.success {
                    Result::Ok(normalize_font_list(parse_windows_fonts(out.stdout.as_str())))
                } else {
                    Result::Err(out.stderr)
                }
            },
        },
    }
}

/// The font list handed to the front end: discovery's result where the
/// utility ran, the fallback list where it failed. Always non-empty, sorted,
/// duplicate-free, and made of trimmed, non-empty names.
pub fn list_system_fonts(platform: Platform, query: Result<CommandOutput, String>) -> (r: Vec<
    String,
>)
    ensures
        strictly_sorted(str_views(r@)),
        str_views(r@).len() > 0,
        forall|t: Seq<char>| str_views(r@).contains(t) ==> is_normal_name(t),
        match query {
            Result::Ok(out) => {
                if out.success && !(platform is Other) {
                    is_normalized_of(str_views(r@), raw_font_names(platform, out.stdout@))
                } else {
                    str_views(r@) == fallback_fonts()
                }
            },
            Result::Err(_) => str_views(r@) == fallback_fonts(),
        },
{
    proof {
        lemma_fallback_fonts_wf();
    }
    match collect_system_fonts(platform, query) {
        Result::Ok(v) => v,
        Result::Err(_) => fallback_font_list(),
    }
}

} // verus!
