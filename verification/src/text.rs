//! Characters, whitespace trimming, and the lexicographic order on strings
//! that the rest of the library sorts by.

use vstd::prelude::*;
use vstd::string::StrSliceExecFns;
use vstd::string::StringExecFns;

verus! {

/// The Unicode code points with the `White_Space` property: exactly the
/// characters that trimming removes from the ends of a name.
pub open spec fn is_space_char(c: char) -> bool {
    ||| c == ' '
    ||| c == '\t'
    ||| c == '\n'
    ||| c == '\r'
    ||| c == '\u{0b}'
    ||| c == '\u{0c}'
    ||| c == '\u{85}'
    ||| c == '\u{a0}'
    ||| c == '\u{1680}'
    ||| (0x2000 <= c as u32 && c as u32 <= 0x200a)
    ||| c == '\u{2028}'
    ||| c == '\u{2029}'
    ||| c == '\u{202f}'
    ||| c == '\u{205f}'
    ||| c == '\u{3000}'
}

pub fn is_space(c: char) -> (r: bool)
    ensures
        r == is_space_char(c),
{
    c == ' ' || c == '\t' || c == '\n' || c == '\r' || c == '\u{0b}' || c == '\u{0c}'
        || c == '\u{85}' || c == '\u{a0}' || c == '\u{1680}'
        || (0x2000 <= c as u32 && c as u32 <= 0x200a) || c == '\u{2028}' || c == '\u{2029}'
        || c == '\u{202f}' || c == '\u{205f}' || c == '\u{3000}'
}

/// Strict lexicographic order on strings by Unicode code point; the order in
/// which font names and file paths are presented.
pub open spec fn lex_lt(a: Seq<char>, b: Seq<char>) -> bool
    decreases a.len(),
{
    if b.len() == 0 {
        false
    } else if a.len() == 0 {
        true
    } else if a[0] < b[0] {
        true
    } else if a[0] == b[0] {
        lex_lt(a.drop_first(), b.drop_first())
    } else {
        false
    }
}

/// The order is irreflexive: no string sorts before itself.
pub proof fn lemma_lex_irrefl(a: Seq<char>)
    ensures
        !lex_lt(a, a),
    decreases a.len(),
{
    if a.len() > 0 {
        lemma_lex_irrefl(a.drop_first());
    }
}

/// The order is total: two strings compare one way, the other, or are equal.
pub proof fn lemma_lex_connected(a: Seq<char>, b: Seq<char>)
    ensures
        lex_lt(a, b) || lex_lt(b, a) || a == b,
    decreases a.len(),
{
    if a.len() == 0 && b.len() == 0 {
        assert(a =~= b);
    } else if a.len() > 0 && b.len() > 0 {
        if a[0] == b[0] {
            lemma_lex_connected(a.drop_first(), b.drop_first());
            if a.drop_first() == b.drop_first() {
                assert forall|k: int| 0 <= k < a.len() implies a[k] == b[k] by {
                    if k > 0 {
                        assert(a[k] == a.drop_first()[k - 1]);
                        assert(b[k] == b.drop_first()[k - 1]);
                    }
                }
                assert(a =~= b);
            }
        }
    }
}

/// The order is transitive.
pub proof fn lemma_lex_trans(a: Seq<char>, b: Seq<char>, c: Seq<char>)
    requires
        lex_lt(a, b),
        lex_lt(b, c),
    ensures
        lex_lt(a, c),
    decreases a.len(),
{
    if a.len() > 0 {
        if a[0] == b[0] && b[0] == c[0] {
            lemma_lex_trans(a.drop_first(), b.drop_first(), c.drop_first());
        }
    }
}

/// Compares two strings in the order `lex_lt`.
pub fn str_lt(a: &str, b: &str) -> (r: bool)
    ensures
        r == lex_lt(a@, b@),
{
    let an: usize = a.unicode_len();
    let bn: usize = b.unicode_len();
    let mut i: usize = 0;
    proof {
        assert(a@.skip(0) =~= a@);
        assert(b@.skip(0) =~= b@);
    }
    loop
        invariant
            i <= an,
            i <= bn,
            an == a@.len(),
            bn == b@.len(),
            lex_lt(a@, b@) == lex_lt(a@.skip(i as int), b@.skip(i as int)),
        decreases an - i,
    {
        if i >= bn {
            return false;
        }
        if i >= an {
            return true;
        }
        let ca = a.get_char(i);
        let cb = b.get_char(i);
        proof {
            assert(a@.skip(i as int)[0] == a@[i as int]);
            assert(b@.skip(i as int)[0] == b@[i as int]);
        }
        if ca < cb {
            return true;
        }
        if ca != cb {
            return false;
        }
        proof {
            assert(a@.skip(i as int).drop_first() =~= a@.skip(i + 1));
            assert(b@.skip(i as int).drop_first() =~= b@.skip(i + 1));
        }
        i = i + 1;
    }
}

/// What remains of a string after the leading whitespace is dropped.
pub open spec fn trim_start_spec(s: Seq<char>) -> Seq<char>
    decreases s.len(),
{
    if s.len() > 0 && is_space_char(s[0]) {
        trim_start_spec(s.drop_first())
    } else {
        s
    }
}

/// What remains of a string after the trailing whitespace is dropped.
pub open spec fn trim_end_spec(s: Seq<char>) -> Seq<char>
    decreases s.len(),
{
    if s.len() > 0 && is_space_char(s.last()) {
        trim_end_spec(s.drop_last())
    } else {
        s
    }
}

/// A string with the whitespace at both ends dropped.
pub open spec fn trim_spec(s: Seq<char>) -> Seq<char> {
    trim_end_spec(trim_start_spec(s))
}

proof fn lemma_trim_start_no_lead(s: Seq<char>)
    ensures
        trim_start_spec(s).len() > 0 ==> !is_space_char(trim_start_spec(s)[0]),
    decreases s.len(),
{
    if s.len() > 0 && is_space_char(s[0]) {
        lemma_trim_start_no_lead(s.drop_first());
    }
}

proof fn lemma_trim_end_no_trail(s: Seq<char>)
    ensures
        trim_end_spec(s).len() > 0 ==> !is_space_char(trim_end_spec(s).last()),
    decreases s.len(),
{
    if s.len() > 0 && is_space_char(s.last()) {
        lemma_trim_end_no_trail(s.drop_last());
    }
}

proof fn lemma_trim_end_prefix(s: Seq<char>)
    ensures
        trim_end_spec(s).len() <= s.len(),
        trim_end_spec(s) == s.take(trim_end_spec(s).len() as int),
    decreases s.len(),
{
    if s.len() > 0 && is_space_char(s.last()) {
        lemma_trim_end_prefix(s.drop_last());
        assert(s.drop_last().take(trim_end_spec(s).len() as int) =~= s.take(
            trim_end_spec(s).len() as int,
        ));
    } else {
        assert(s.take(s.len() as int) =~= s);
    }
}

/// Trimming an already trimmed string changes nothing.
pub proof fn lemma_trim_idempotent(s: Seq<char>)
    ensures
        trim_spec(trim_spec(s)) == trim_spec(s),
{
    let t = trim_spec(s);
    lemma_trim_start_no_lead(s);
    lemma_trim_end_prefix(trim_start_spec(s));
    if t.len() > 0 {
        assert(t[0] == trim_start_spec(s)[0]);
    }
    assert(trim_start_spec(t) == t);
    lemma_trim_end_no_trail(trim_start_spec(s));
}

/// A copy of the string with the whitespace at both ends removed.
pub fn trim(s: &str) -> (r: String)
    ensures
        r@ == trim_spec(s@),
{
    let n: usize = s.unicode_len();
    let mut i: usize = 0;
    proof {
        assert(s@.skip(0) =~= s@);
    }
    loop
        invariant
            i <= n,
            n == s@.len(),
            trim_start_spec(s@) == trim_start_spec(s@.skip(i as int)),
        ensures
            i <= n,
            trim_start_spec(s@) == trim_start_spec(s@.skip(i as int)),
            i == n || !is_space_char(s@[i as int]),
        decreases n - i,
    {
        if i >= n {
            break;
        }
        if !is_space(s.get_char(i)) {
            break;
        }
        proof {
            assert(s@.skip(i as int).drop_first() =~= s@.skip(i + 1));
        }
        i = i + 1;
    }
    proof {
        if i < n {
            assert(s@.skip(i as int)[0] == s@[i as int]);
        }
        assert(trim_start_spec(s@) =~= s@.skip(i as int));
        assert(s@.skip(i as int) =~= s@.subrange(i as int, n as int));
    }
    let mut j: usize = n;
    loop
        invariant
            i <= j,
            j <= n,
            n == s@.len(),
            trim_end_spec(s@.subrange(i as int, n as int)) == trim_end_spec(
                s@.subrange(i as int, j as int),
            ),
        ensures
            i <= j <= n,
            trim_end_spec(s@.subrange(i as int, n as int)) == trim_end_spec(
                s@.subrange(i as int, j as int),
            ),
            j == i || !is_space_char(s@[j - 1]),
        decreases j,
    {
        if j <= i {
            break;
        }
        if !is_space(s.get_char(j - 1)) {
            break;
        }
        proof {
            assert(s@.subrange(i as int, j as int).last() == s@[j - 1]);
            assert(s@.subrange(i as int, j as int).drop_last() =~= s@.subrange(i as int, j - 1));
        }
        j = j - 1;
    }
    proof {
        if j > i {
            assert(s@.subrange(i as int, j as int).last() == s@[j - 1]);
        }
        assert(trim_end_spec(s@.subrange(i as int, j as int)) == s@.subrange(i as int, j as int));
    }
    String::from_str(s.substring_char(i, j))
}

/// The views of a vector of strings, one sequence of characters per string.
pub open spec fn str_views(v: Seq<String>) -> Seq<Seq<char>> {
    v.map_values(|x: String| x@)
}

pub proof fn lemma_str_views_push(v: Seq<String>, x: String)
    ensures
        str_views(v.push(x)) == str_views(v).push(x@),
{
    assert(str_views(v.push(x)) =~= str_views(v).push(x@));
}

/// The pieces of a string between occurrences of a separator; there is always
/// at least one piece, and the separator stands in none of them.
pub open spec fn split_on(s: Seq<char>, sep: char) -> Seq<Seq<char>>
    decreases s.len(),
{
    if s.len() == 0 {
        seq![Seq::<char>::empty()]
    } else if s[0] == sep {
        seq![Seq::<char>::empty()] + split_on(s.drop_first(), sep)
    } else {
        let rest = split_on(s.drop_first(), sep);
        seq![seq![s[0]] + rest[0]] + rest.drop_first()
    }
}

pub proof fn lemma_split_on_len(s: Seq<char>, sep: char)
    ensures
        split_on(s, sep).len() >= 1,
    decreases s.len(),
{
    if s.len() > 0 {
        lemma_split_on_len(s.drop_first(), sep);
    }
}

proof fn lemma_split_on_sep(s: Seq<char>, sep: char, k: int)
    requires
        0 <= k < s.len(),
        s[k] == sep,
        forall|m: int| 0 <= m < k ==> s[m] != sep,
    ensures
        split_on(s, sep) == seq![s.take(k)] + split_on(s.skip(k + 1), sep),
    decreases k,
{
    if k == 0 {
        assert(s.take(0) =~= Seq::<char>::empty());
        assert(s.skip(1) =~= s.drop_first());
        assert(split_on(s, sep) =~= seq![s.take(0)] + split_on(s.skip(1), sep));
    } else {
        let d = s.drop_first();
        lemma_split_on_sep(d, sep, k - 1);
        lemma_split_on_len(d.skip(k), sep);
        assert(seq![s[0]] + d.take(k - 1) =~= s.take(k));
        assert((seq![d.take(k - 1)] + split_on(d.skip(k), sep)).drop_first() =~= split_on(
            d.skip(k),
            sep,
        ));
        assert(d.skip(k) =~= s.skip(k + 1));
        assert(split_on(s, sep) =~= seq![s.take(k)] + split_on(s.skip(k + 1), sep));
    }
}

proof fn lemma_split_on_no_sep(s: Seq<char>, sep: char)
    requires
        forall|m: int| 0 <= m < s.len() ==> s[m] != sep,
    ensures
        split_on(s, sep) == seq![s],
    decreases s.len(),
{
    if s.len() == 0 {
        assert(s =~= Seq::<char>::empty());
    } else {
        lemma_split_on_no_sep(s.drop_first(), sep);
        assert(seq![s[0]] + s.drop_first() =~= s);
        assert((seq![s.drop_first()]).drop_first() =~= Seq::<Seq<char>>::empty());
        assert(split_on(s, sep) =~= seq![s]);
    }
}

/// Splits a string at each occurrence of the separator.
pub fn split_char(s: &str, sep: char) -> (r: Vec<String>)
    ensures
        str_views(r@) == split_on(s@, sep),
        r@.len() >= 1,
{
    let n: usize = s.unicode_len();
    let mut r: Vec<String> = Vec::new();
    let mut p: usize = 0;
    let mut q: usize = 0;
    proof {
        assert(s@.skip(0) =~= s@);
        assert(str_views(Seq::<String>::empty()) =~= Seq::<Seq<char>>::empty());
    }
    loop
        invariant_except_break
            split_on(s@, sep) == str_views(r@) + split_on(s@.skip(p as int), sep),
            forall|m: int| p <= m < q ==> s@[m] != sep,
        invariant
            p <= q <= n,
            n == s@.len(),
        ensures
            str_views(r@) == split_on(s@, sep),
            r@.len() >= 1,
        decreases n - q,
    {
        if q >= n {
            let piece = String::from_str(s.substring_char(p, n));
            proof {
                let rem = s@.skip(p as int);
                assert(forall|m: int| 0 <= m < rem.len() ==> rem[m] == s@[p + m]);
                lemma_split_on_no_sep(rem, sep);
                assert(rem =~= s@.subrange(p as int, n as int));
                lemma_str_views_push(r@, piece);
                assert(str_views(r@).push(rem) =~= str_views(r@) + seq![rem]);
            }
            r.push(piece);
            break;
        }
        let ch = s.get_char(q);
        if ch == sep {
            let piece = String::from_str(s.substring_char(p, q));
            proof {
                let rem = s@.skip(p as int);
                let k = q - p;
                assert(forall|m: int| 0 <= m < rem.len() ==> rem[m] == s@[p + m]);
                lemma_split_on_sep(rem, sep, k as int);
                assert(rem.take(k as int) =~= s@.subrange(p as int, q as int));
                assert(rem.skip(k + 1) =~= s@.skip(q + 1));
                lemma_str_views_push(r@, piece);
                assert(str_views(r@).push(rem.take(k as int)) =~= str_views(r@) + seq![
                    rem.take(k as int),
                ]);
                assert((str_views(r@) + seq![rem.take(k as int)]) + split_on(s@.skip(q + 1), sep)
                    =~= str_views(r@) + (seq![rem.take(k as int)] + split_on(s@.skip(q + 1), sep)));
            }
            r.push(piece);
            p = q + 1;
            q = q + 1;
        } else {
            q = q + 1;
        }
    }
    r
}

/// A line with one trailing carriage return removed.
pub open spec fn chop_cr(l: Seq<char>) -> Seq<char> {
    if l.len() > 0 && l.last() == '\r' {
        l.drop_last()
    } else {
        l
    }
}

/// The lines of a piece of command output: the pieces between newline
/// characters, each with a trailing carriage return dropped, and without the
/// final empty piece of output that ends in a newline.
pub open spec fn lines_spec(s: Seq<char>) -> Seq<Seq<char>> {
    if s.len() == 0 {
        Seq::empty()
    } else {
        let parts = split_on(s, '\n');
        let kept = if parts.last().len() == 0 {
            parts.drop_last()
        } else {
            parts
        };
        kept.map_values(|l: Seq<char>| chop_cr(l))
    }
}

fn chop_cr_exec(l: &str) -> (r: String)
    ensures
        r@ == chop_cr(l@),
{
    let n: usize = l.unicode_len();
    if n > 0 && l.get_char(n - 1) == '\r' {
        proof {
            assert(l@.subrange(0, n - 1) =~= l@.drop_last());
        }
        String::from_str(l.substring_char(0, n - 1))
    } else {
        String::from_str(l)
    }
}

/// Splits command output into lines.
pub fn split_lines(s: &str) -> (r: Vec<String>)
    ensures
        str_views(r@) == lines_spec(s@),
{
    let n: usize = s.unicode_len();
    if n == 0 {
        let r: Vec<String> = Vec::new();
        proof {
            assert(str_views(r@) =~= lines_spec(s@));
        }
        return r;
    }
    let mut parts = split_char(s, '\n');
    let ghost all_parts = str_views(parts@);
    let last_len: usize = parts[parts.len() - 1].unicode_len();
    if last_len == 0 {
        let _ = parts.pop();
        proof {
            assert(str_views(parts@) =~= all_parts.drop_last());
        }
    }
    let ghost kept = str_views(parts@);
    let mut out: Vec<String> = Vec::new();
    let mut i: usize = 0;
    proof {
        assert(str_views(out@) =~= kept.map_values(|l: Seq<char>| chop_cr(l)).take(0));
    }
    while i < parts.len()
        invariant
            i <= parts.len(),
            kept == str_views(parts@),
            str_views(out@) == kept.map_values(|l: Seq<char>| chop_cr(l)).take(i as int),
        decreases parts.len() - i,
    {
        let chopped = chop_cr_exec(parts[i].as_str());
        proof {
            lemma_str_views_push(out@, chopped);
            let mapped = kept.map_values(|l: Seq<char>| chop_cr(l));
            assert(mapped.take(i as int).push(chopped@) =~= mapped.take(i + 1));
        }
        out.push(chopped);
        i = i + 1;
    }
    proof {
        let mapped = kept.map_values(|l: Seq<char>| chop_cr(l));
        assert(mapped.take(parts@.len() as int) =~= mapped);
        assert(str_views(out@) =~= lines_spec(s@));
    }
    out
}

/// Whether `p` stands at the start of `s`.
pub open spec fn has_prefix(s: Seq<char>, p: Seq<char>) -> bool {
    p.len() <= s.len() && s.take(p.len() as int) == p
}

/// The remainder of `s` after the prefix `p`, where `p` stands at its start.
pub fn strip_prefix(s: &str, p: &str) -> (r: Option<String>)
    ensures
        has_prefix(s@, p@) ==> (r matches Some(t) && t@ == s@.skip(p@.len() as int)),
        !has_prefix(s@, p@) ==> r is None,
{
    let n: usize = s.unicode_len();
    let pn: usize = p.unicode_len();
    if pn > n {
        return None;
    }
    let mut i: usize = 0;
    while i < pn
        invariant
            i <= pn <= n,
            n == s@.len(),
            pn == p@.len(),
            forall|k: int| 0 <= k < i ==> s@[k] == p@[k],
        ensures
            i <= pn,
            forall|k: int| 0 <= k < i ==> s@[k] == p@[k],
            i == pn || s@[i as int] != p@[i as int],
        decreases pn - i,
    {
        if s.get_char(i) != p.get_char(i) {
            break;
        }
        i = i + 1;
    }
    if i < pn {
        proof {
            assert(s@.take(pn as int)[i as int] == s@[i as int]);
        }
        return None;
    }
    proof {
        assert(s@.take(pn as int) =~= p@);
        assert(s@.subrange(pn as int, n as int) =~= s@.skip(pn as int));
    }
    Some(String::from_str(s.substring_char(pn, n)))
}

/// A string with every occurrence of one character removed.
pub open spec fn remove_all(s: Seq<char>, c: char) -> Seq<char>
    decreases s.len(),
{
    if s.len() == 0 {
        Seq::empty()
    } else if s.last() == c {
        remove_all(s.drop_last(), c)
    } else {
        remove_all(s.drop_last(), c).push(s.last())
    }
}

/// A copy of the string with every occurrence of `c` removed.
pub fn remove_char(s: &str, c: char) -> (r: String)
    ensures
        r@ == remove_all(s@, c),
{
    let n: usize = s.unicode_len();
    let mut out = String::new();
    let mut i: usize = 0;
    proof {
        assert(s@.take(0) =~= Seq::<char>::empty());
    }
    while i < n
        invariant
            i <= n,
            n == s@.len(),
            out@ == remove_all(s@.take(i as int), c),
        decreases n - i,
    {
        let ch = s.get_char(i);
        proof {
            assert(s@.take(i + 1).drop_last() =~= s@.take(i as int));
            assert(s@.take(i + 1).last() == s@[i as int]);
        }
        if ch != c {
            let piece = s.substring_char(i, i + 1);
            proof {
                assert(out@.push(ch) =~= out@ + s@.subrange(i as int, i + 1));
            }
            out.append(piece);
        }
        i = i + 1;
    }
    proof {
        assert(s@.take(n as int) =~= s@);
    }
    out
}

} // verus!
