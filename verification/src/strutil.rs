//! Character-sequence utilities shared by the parser and the list state:
//! splitting on a separator, whitespace tokenization, key normalization,
//! substring search and lexicographic ordering, each with a specification
//! over `Seq<char>` views.

use vstd::prelude::*;

verus! {

/// The views of a sequence of strings.
pub open spec fn str_views(v: Seq<String>) -> Seq<Seq<char>> {
    v.map_values(|x: String| x@)
}

pub proof fn lemma_str_views_push(v: Seq<String>, x: String)
    ensures
        str_views(v.push(x)) == str_views(v).push(x@),
{
    assert(str_views(v.push(x)) =~= str_views(v).push(x@));
}

/// The segments of `s` between occurrences of `sep`, in order.
/// There is always at least one segment; a separator at the end
/// contributes a trailing empty segment, as `str::split` does.
pub open spec fn split_on(s: Seq<char>, sep: char) -> Seq<Seq<char>>
    decreases s.len(),
{
    if s.len() == 0 {
        seq![Seq::<char>::empty()]
    } else {
        let pre = split_on(s.drop_last(), sep);
        if s.last() == sep {
            pre.push(Seq::<char>::empty())
        } else {
            pre.update(pre.len() - 1, pre.last().push(s.last()))
        }
    }
}

/// Splits `s` into the segments between occurrences of `sep`.
pub fn split_char(s: &str, sep: char) -> (r: Vec<String>)
    ensures
        str_views(r@) == split_on(s@, sep),
{
    let n = s.unicode_len();
    let mut out: Vec<String> = Vec::new();
    let mut start: usize = 0;
    let mut i: usize = 0;
    proof {
        assert(s@.subrange(0, 0) =~= Seq::<char>::empty());
        assert(split_on(Seq::<char>::empty(), sep) == seq![Seq::<char>::empty()]);
        assert(str_views(out@).push(Seq::<char>::empty()) =~= seq![Seq::<char>::empty()]);
    }
    while i < n
        invariant
            start <= i <= n,
            n == s@.len(),
            split_on(s@.subrange(0, i as int), sep) == str_views(out@).push(
                s@.subrange(start as int, i as int),
            ),
        decreases n - i,
    {
        let c = s.get_char(i);
        proof {
            assert(s@.subrange(0, i + 1 as int).drop_last() =~= s@.subrange(0, i as int));
            assert(s@.subrange(0, i + 1 as int).last() == s@[i as int]);
        }
        if c == sep {
            let seg = s.substring_char(start, i).to_owned();
            proof {
                lemma_str_views_push(out@, seg);
                let t = s@.subrange(0, i + 1 as int);
                assert(split_on(t, sep) == split_on(s@.subrange(0, i as int), sep).push(
                    Seq::<char>::empty(),
                ));
                assert(s@.subrange(i + 1 as int, i + 1 as int) =~= Seq::<char>::empty());
            }
            out.push(seg);
            start = i + 1;
        } else {
            proof {
                let pre = split_on(s@.subrange(0, i as int), sep);
                let cur = s@.subrange(start as int, i as int);
                assert(pre == str_views(out@).push(cur));
                assert(pre.len() == str_views(out@).len() + 1);
                assert(pre.last() == cur);
                assert(split_on(s@.subrange(0, i + 1 as int), sep) == pre.update(
                    pre.len() - 1,
                    cur.push(s@[i as int]),
                ));
                assert(pre.update(pre.len() - 1, cur.push(s@[i as int])) =~= str_views(out@).push(
                    cur.push(s@[i as int]),
                ));
                assert(s@.subrange(start as int, i + 1 as int) =~= cur.push(s@[i as int]));
            }
        }
        i = i + 1;
    }
    let last_seg = s.substring_char(start, n).to_owned();
    proof {
        lemma_str_views_push(out@, last_seg);
        assert(s@.subrange(0, n as int) =~= s@);
    }
    out.push(last_seg);
    out
}

/// The non-empty segments of a segment list, in order.
pub open spec fn drop_empty(segs: Seq<Seq<char>>) -> Seq<Seq<char>>
    decreases segs.len(),
{
    if segs.len() == 0 {
        Seq::empty()
    } else {
        let pre = drop_empty(segs.drop_last());
        if segs.last().len() > 0 {
            pre.push(segs.last())
        } else {
            pre
        }
    }
}

/// The whitespace-delimited fields of `s`: the non-empty segments
/// between spaces, in order.
pub open spec fn tokens_of(s: Seq<char>) -> Seq<Seq<char>> {
    drop_empty(split_on(s, ' '))
}

/// Splits `s` into its whitespace-delimited fields.
pub fn tokens(s: &str) -> (r: Vec<String>)
    ensures
        str_views(r@) == tokens_of(s@),
{
    let segs = split_char(s, ' ');
    let mut out: Vec<String> = Vec::new();
    let mut i: usize = 0;
    proof {
        assert(str_views(segs@).subrange(0, 0) =~= Seq::<Seq<char>>::empty());
        assert(str_views(out@) =~= Seq::<Seq<char>>::empty());
    }
    while i < segs.len()
        invariant
            i <= segs.len(),
            str_views(segs@) == split_on(s@, ' '),
            str_views(out@) == drop_empty(str_views(segs@).subrange(0, i as int)),
        decreases segs.len() - i,
    {
        proof {
            let sv = str_views(segs@);
            assert(sv.subrange(0, i + 1 as int).drop_last() =~= sv.subrange(0, i as int));
            assert(sv.subrange(0, i + 1 as int).last() == sv[i as int]);
            assert(sv[i as int] == segs@[i as int]@);
        }
        let seg = &segs[i];
        if seg.as_str().unicode_len() > 0 {
            let owned = seg.clone();
            proof {
                lemma_str_views_push(out@, owned);
            }
            out.push(owned);
        }
        i = i + 1;
    }
    proof {
        assert(str_views(segs@).subrange(0, segs@.len() as int) =~= str_views(segs@));
    }
    out
}

/// Compares two string slices character by character.
pub fn str_eq(a: &str, b: &str) -> (r: bool)
    ensures
        r == (a@ == b@),
{
    let n = a.unicode_len();
    let m = b.unicode_len();
    if n != m {
        proof {
            assert(a@ != b@) by {
                if a@ == b@ {
                    assert(a@.len() == b@.len());
                }
            }
        }
        return false;
    }
    let mut i: usize = 0;
    while i < n
        invariant
            i <= n,
            n == a@.len() == b@.len(),
            forall|j: int| 0 <= j < i ==> a@[j] == b@[j],
        decreases n - i,
    {
        if a.get_char(i) != b.get_char(i) {
            return false;
        }
        i = i + 1;
    }
    proof {
        assert(a@ =~= b@);
    }
    true
}

/// `s` with its leading spaces removed.
pub open spec fn trim_leading_spaces(s: Seq<char>) -> Seq<char>
    decreases s.len(),
{
    if s.len() > 0 && s[0] == ' ' {
        trim_leading_spaces(s.drop_first())
    } else {
        s
    }
}

proof fn lemma_trim_at(s: Seq<char>, i: int)
    requires
        0 <= i <= s.len(),
        forall|j: int| 0 <= j < i ==> s[j] == ' ',
        i == s.len() || s[i] != ' ',
    ensures
        trim_leading_spaces(s) == s.subrange(i, s.len() as int),
    decreases i,
{
    if i == 0 {
        assert(s.subrange(0, s.len() as int) =~= s);
    } else {
        assert(s[0] == ' ');
        let t = s.drop_first();
        assert(forall|j: int| 0 <= j < i - 1 ==> t[j] == s[j + 1] && t[j] == ' ');
        lemma_trim_at(t, i - 1);
        assert(t.subrange(i - 1, t.len() as int) =~= s.subrange(i, s.len() as int));
    }
}

/// Removes the leading spaces of `s`.
pub fn trim_leading<'a>(s: &'a str) -> (r: &'a str)
    ensures
        r@ == trim_leading_spaces(s@),
{
    let n = s.unicode_len();
    let mut i: usize = 0;
    while i < n && s.get_char(i) == ' '
        invariant
            i <= n,
            n == s@.len(),
            forall|j: int| 0 <= j < i ==> s@[j] == ' ',
        decreases n - i,
    {
        i = i + 1;
    }
    proof {
        lemma_trim_at(s@, i as int);
    }
    s.substring_char(i, n)
}

/// Lexicographic order on character sequences, by code point,
/// with a proper prefix ordered first.
pub open spec fn lex_leq(a: Seq<char>, b: Seq<char>) -> bool
    decreases a.len(),
{
    if a.len() == 0 {
        true
    } else if b.len() == 0 {
        false
    } else if a[0] == b[0] {
        lex_leq(a.drop_first(), b.drop_first())
    } else {
        (a[0] as u32) < (b[0] as u32)
    }
}

pub proof fn lemma_lex_leq_total(a: Seq<char>, b: Seq<char>)
    ensures
        lex_leq(a, b) || lex_leq(b, a),
    decreases a.len(),
{
    if a.len() > 0 && b.len() > 0 && a[0] == b[0] {
        lemma_lex_leq_total(a.drop_first(), b.drop_first());
    } else if a.len() > 0 && b.len() > 0 {
        vstd::utf8::char_u32_cast(a[0], a[0] as u32);
        vstd::utf8::char_u32_cast(b[0], b[0] as u32);
    }
}

pub proof fn lemma_lex_leq_trans(a: Seq<char>, b: Seq<char>, c: Seq<char>)
    requires
        lex_leq(a, b),
        lex_leq(b, c),
    ensures
        lex_leq(a, c),
    decreases a.len(),
{
    if a.len() > 0 && b.len() > 0 && c.len() > 0 && a[0] == b[0] && b[0] == c[0] {
        lemma_lex_leq_trans(a.drop_first(), b.drop_first(), c.drop_first());
    }
}

proof fn lemma_lex_leq_at(a: Seq<char>, b: Seq<char>, i: int)
    requires
        0 <= i <= a.len(),
        i <= b.len(),
        forall|j: int| 0 <= j < i ==> a[j] == b[j],
    ensures
        i == a.len() ==> lex_leq(a, b),
        i == b.len() && i < a.len() ==> !lex_leq(a, b),
        i < a.len() && i < b.len() && a[i] != b[i] ==> lex_leq(a, b) == ((a[i] as u32) < (
        b[i] as u32)),
    decreases i,
{
    if i > 0 {
        assert(a[0] == b[0]);
        let at = a.drop_first();
        let bt = b.drop_first();
        assert(forall|j: int| 0 <= j < i - 1 ==> at[j] == a[j + 1] && bt[j] == b[j + 1]);
        lemma_lex_leq_at(at, bt, i - 1);
    }
}

/// Compares two string slices in lexicographic order.
pub fn str_lex_leq(a: &str, b: &str) -> (r: bool)
    ensures
        r == lex_leq(a@, b@),
{
    let n = a.unicode_len();
    let m = b.unicode_len();
    let mut i: usize = 0;
    loop
        invariant
            i <= n,
            i <= m,
            n == a@.len(),
            m == b@.len(),
            forall|j: int| 0 <= j < i ==> a@[j] == b@[j],
        decreases n - i,
    {
        proof {
            lemma_lex_leq_at(a@, b@, i as int);
        }
        if i >= n {
            return true;
        }
        if i >= m {
            return false;
        }
        let ca = a.get_char(i);
        let cb = b.get_char(i);
        if ca as u32 != cb as u32 {
            return (ca as u32) < (cb as u32);
        }
        proof {
            vstd::utf8::char_u32_cast(ca, ca as u32);
            vstd::utf8::char_u32_cast(cb, cb as u32);
            assert(a@[i as int] == b@[i as int]);
        }
        i = i + 1;
    }
}

/// `needle` occurs in `hay` as a contiguous subsequence.
pub open spec fn contains_sub(hay: Seq<char>, needle: Seq<char>) -> bool {
    exists|k: int|
        0 <= k && k + needle.len() <= hay.len() && #[trigger] hay.subrange(k, k + needle.len())
            == needle
}

/// Does `needle` occur in `hay` starting at character position `k`?
fn match_at(hay: &str, k: usize, needle: &str) -> (r: bool)
    requires
        k + needle@.len() <= hay@.len(),
    ensures
        r == (hay@.subrange(k as int, k + needle@.len()) == needle@),
{
    let m = needle.unicode_len();
    let n = hay.unicode_len();
    let mut j: usize = 0;
    while j < m
        invariant
            j <= m,
            m == needle@.len(),
            n == hay@.len(),
            k + m <= n,
            forall|jj: int| 0 <= jj < j ==> hay@[k + jj] == needle@[jj],
        decreases m - j,
    {
        if hay.get_char(k + j) != needle.get_char(j) {
            proof {
                let sub = hay@.subrange(k as int, k + needle@.len());
                assert(sub[j as int] == hay@[k + j]);
            }
            return false;
        }
        j = j + 1;
    }
    proof {
        assert(hay@.subrange(k as int, k + needle@.len()) =~= needle@);
    }
    true
}

/// Substring search: does `needle` occur in `hay`?
pub fn str_contains(hay: &str, needle: &str) -> (r: bool)
    ensures
        r == contains_sub(hay@, needle@),
{
    let n = hay.unicode_len();
    let m = needle.unicode_len();
    if m > n {
        return false;
    }
    let mut k: usize = 0;
    loop
        invariant
            m <= n,
            n == hay@.len(),
            m == needle@.len(),
            k <= n - m + 1,
            forall|kk: int|
                0 <= kk < k ==> #[trigger] hay@.subrange(kk, kk + needle@.len()) != needle@,
        decreases n - m + 1 - k,
    {
        if k > n - m {
            return false;
        }
        if match_at(hay, k, needle) {
            return true;
        }
        proof {
            if m == 0 {
                assert(hay@.subrange(k as int, k + needle@.len()) =~= needle@);
            }
        }
        k = k + 1;
    }
}

/// ASCII lowercasing of one character; other characters are unchanged.
pub open spec fn lower_char(c: char) -> char {
    if c == 'A' {
        'a'
    } else if c == 'B' {
        'b'
    } else if c == 'C' {
        'c'
    } else if c == 'D' {
        'd'
    } else if c == 'E' {
        'e'
    } else if c == 'F' {
        'f'
    } else if c == 'G' {
        'g'
    } else if c == 'H' {
        'h'
    } else if c == 'I' {
        'i'
    } else if c == 'J' {
        'j'
    } else if c == 'K' {
        'k'
    } else if c == 'L' {
        'l'
    } else if c == 'M' {
        'm'
    } else if c == 'N' {
        'n'
    } else if c == 'O' {
        'o'
    } else if c == 'P' {
        'p'
    } else if c == 'Q' {
        'q'
    } else if c == 'R' {
        'r'
    } else if c == 'S' {
        's'
    } else if c == 'T' {
        't'
    } else if c == 'U' {
        'u'
    } else if c == 'V' {
        'v'
    } else if c == 'W' {
        'w'
    } else if c == 'X' {
        'x'
    } else if c == 'Y' {
        'y'
    } else if c == 'Z' {
        'z'
    } else {
        c
    }
}

/// A detail key normalized for matching: spaces removed and ASCII
/// letters lowercased.
pub open spec fn norm_key(s: Seq<char>) -> Seq<char>
    decreases s.len(),
{
    if s.len() == 0 {
        Seq::empty()
    } else {
        let pre = norm_key(s.drop_last());
        if s.last() == ' ' {
            pre
        } else {
            pre.push(lower_char(s.last()))
        }
    }
}

/// ASCII-lowercases one character.
fn lower_char_exec(c: char) -> (r: char)
    ensures
        r == lower_char(c),
{
    if c == 'A' {
        'a'
    } else if c == 'B' {
        'b'
    } else if c == 'C' {
        'c'
    } else if c == 'D' {
        'd'
    } else if c == 'E' {
        'e'
    } else if c == 'F' {
        'f'
    } else if c == 'G' {
        'g'
    } else if c == 'H' {
        'h'
    } else if c == 'I' {
        'i'
    } else if c == 'J' {
        'j'
    } else if c == 'K' {
        'k'
    } else if c == 'L' {
        'l'
    } else if c == 'M' {
        'm'
    } else if c == 'N' {
        'n'
    } else if c == 'O' {
        'o'
    } else if c == 'P' {
        'p'
    } else if c == 'Q' {
        'q'
    } else if c == 'R' {
        'r'
    } else if c == 'S' {
        's'
    } else if c == 'T' {
        't'
    } else if c == 'U' {
        'u'
    } else if c == 'V' {
        'v'
    } else if c == 'W' {
        'w'
    } else if c == 'X' {
        'x'
    } else if c == 'Y' {
        'y'
    } else if c == 'Z' {
        'z'
    } else {
        c
    }
}

/// Normalizes a detail key: removes spaces and lowercases ASCII letters.
pub fn normalize_key(s: &str) -> (r: Vec<char>)
    ensures
        r@ == norm_key(s@),
{
    let n = s.unicode_len();
    let mut out: Vec<char> = Vec::new();
    let mut i: usize = 0;
    proof {
        assert(s@.subrange(0, 0) =~= Seq::<char>::empty());
    }
    while i < n
        invariant
            i <= n,
            n == s@.len(),
            out@ == norm_key(s@.subrange(0, i as int)),
        decreases n - i,
    {
        proof {
            assert(s@.subrange(0, i + 1 as int).drop_last() =~= s@.subrange(0, i as int));
            assert(s@.subrange(0, i + 1 as int).last() == s@[i as int]);
        }
        let c = s.get_char(i);
        if c != ' ' {
            out.push(lower_char_exec(c));
        }
        i = i + 1;
    }
    proof {
        assert(s@.subrange(0, n as int) =~= s@);
    }
    out
}

/// Compares a character vector with a string slice.
pub fn chars_eq_str(v: &Vec<char>, s: &str) -> (r: bool)
    ensures
        r == (v@ == s@),
{
    let n = s.unicode_len();
    if v.len() != n {
        proof {
            assert(v@ != s@) by {
                if v@ == s@ {
                    assert(v@.len() == s@.len());
                }
            }
        }
        return false;
    }
    let mut i: usize = 0;
    while i < n
        invariant
            i <= n,
            n == s@.len() == v@.len(),
            forall|j: int| 0 <= j < i ==> v@[j] == s@[j],
        decreases n - i,
    {
        if v[i] != s.get_char(i) {
            return false;
        }
        i = i + 1;
    }
    proof {
        assert(v@ =~= s@);
    }
    true
}

/// The strings of `v` joined with commas, in order.
pub open spec fn joined_commas(v: Seq<Seq<char>>) -> Seq<char>
    decreases v.len(),
{
    if v.len() == 0 {
        Seq::empty()
    } else if v.len() == 1 {
        v[0]
    } else {
        joined_commas(v.drop_last()) + seq![','] + v.last()
    }
}

/// Joins strings with commas, for display.
pub fn join_vec(v: &Vec<String>) -> (r: String)
    ensures
        r@ == joined_commas(str_views(v@)),
{
    let mut out = String::new();
    let mut i: usize = 0;
    proof {
        assert(str_views(v@).subrange(0, 0) =~= Seq::<Seq<char>>::empty());
    }
    while i < v.len()
        invariant
            i <= v@.len(),
            out@ == joined_commas(str_views(v@).subrange(0, i as int)),
        decreases v@.len() - i,
    {
        proof {
            let sv = str_views(v@);
            assert(sv.subrange(0, i + 1 as int).drop_last() =~= sv.subrange(0, i as int));
            assert(sv.subrange(0, i + 1 as int).last() == sv[i as int]);
            assert(sv[i as int] == v@[i as int]@);
        }
        if i > 0 {
            out.append(",");
            proof {
                reveal_strlit(",");
                assert(","@ =~= seq![',']);
            }
        }
        out.append(v[i].as_str());
        proof {
            if i == 0 {
                assert(str_views(v@).subrange(0, 1).len() == 1);
            }
        }
        i = i + 1;
    }
    proof {
        assert(str_views(v@).subrange(0, v@.len() as int) =~= str_views(v@));
    }
    out
}

} // verus!
