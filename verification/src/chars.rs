//! Character-level string utilities shared by the parsing and resolution
//! code: whitespace trimming, substring search, lexicographic comparison,
//! and conversion between `&str` and `Vec<char>`.

use vstd::prelude::*;
use core::cmp::Ordering;

verus! {

/// The characters with the Unicode `White_Space` property, the set that
/// `str::trim` and whitespace splitting go by.
pub open spec fn is_space_char(c: char) -> bool {
    c == '\u{0009}' || c == '\u{000A}' || c == '\u{000B}' || c == '\u{000C}'
        || c == '\u{000D}' || c == ' ' || c == '\u{0085}' || c == '\u{00A0}'
        || c == '\u{1680}' || c == '\u{2000}' || c == '\u{2001}' || c == '\u{2002}'
        || c == '\u{2003}' || c == '\u{2004}' || c == '\u{2005}' || c == '\u{2006}'
        || c == '\u{2007}' || c == '\u{2008}' || c == '\u{2009}' || c == '\u{200A}'
        || c == '\u{2028}' || c == '\u{2029}' || c == '\u{202F}' || c == '\u{205F}'
        || c == '\u{3000}'
}

pub fn is_space(c: char) -> (r: bool)
    ensures
        r == is_space_char(c),
{
    c == '\u{0009}' || c == '\u{000A}' || c == '\u{000B}' || c == '\u{000C}'
        || c == '\u{000D}' || c == ' ' || c == '\u{0085}' || c == '\u{00A0}'
        || c == '\u{1680}' || c == '\u{2000}' || c == '\u{2001}' || c == '\u{2002}'
        || c == '\u{2003}' || c == '\u{2004}' || c == '\u{2005}' || c == '\u{2006}'
        || c == '\u{2007}' || c == '\u{2008}' || c == '\u{2009}' || c == '\u{200A}'
        || c == '\u{2028}' || c == '\u{2029}' || c == '\u{202F}' || c == '\u{205F}'
        || c == '\u{3000}'
}

/// The view of an optional string.
pub open spec fn opt_str_view(o: Option<String>) -> Option<Seq<char>> {
    match o {
        None => None,
        Some(s) => Some(s@),
    }
}

/// The views of a sequence of strings.
pub open spec fn views_of(v: Seq<String>) -> Seq<Seq<char>> {
    v.map_values(|s: String| s@)
}

/// What `str::to_lowercase` returns; the Unicode lowercase mapping takes
/// pages to state, so the contracts name the result instead.
pub uninterp spec fn lower_of(s: Seq<char>) -> Seq<char>;

/// Relies on str::to_lowercase: the result depends on the characters alone.
#[verifier::external_body]
pub fn to_lower(s: &str) -> (r: String)
    ensures
        r@ == lower_of(s@),
{
    s.to_lowercase()
}

/// Relies on String::push: appends exactly the one character.
#[verifier::external_body]
fn push_char(s: &mut String, c: char)
    ensures
        final(s)@ == old(s)@.push(c),
{
    s.push(c)
}

/// The characters of a string, in order.
pub fn chars_of(s: &str) -> (v: Vec<char>)
    ensures
        v@ == s@,
{
    let n = s.unicode_len();
    let mut v: Vec<char> = Vec::new();
    let mut i: usize = 0;
    while i < n
        invariant
            n == s@.len(),
            i <= n,
            v@ =~= s@.subrange(0, i as int),
        decreases n - i,
    {
        v.push(s.get_char(i));
        i += 1;
    }
    proof {
        assert(v@ =~= s@);
    }
    v
}

/// A string holding exactly the given characters.
pub fn string_of(v: &Vec<char>) -> (s: String)
    ensures
        s@ == v@,
{
    let mut s = String::new();
    let mut i: usize = 0;
    while i < v.len()
        invariant
            i <= v@.len(),
            s@ =~= v@.subrange(0, i as int),
        decreases v@.len() - i,
    {
        push_char(&mut s, v[i]);
        i += 1;
    }
    proof {
        assert(s@ =~= v@);
    }
    s
}

/// Equality of two strings, character by character.
pub fn str_eq(a: &str, b: &str) -> (r: bool)
    ensures
        r == (a@ == b@),
{
    let na = a.unicode_len();
    let nb = b.unicode_len();
    if na != nb {
        return false;
    }
    let mut i: usize = 0;
    while i < na
        invariant
            na == a@.len(),
            na == b@.len(),
            i <= na,
            forall|j: int| 0 <= j < i ==> a@[j] == b@[j],
        decreases na - i,
    {
        if a.get_char(i) != b.get_char(i) {
            return false;
        }
        i += 1;
    }
    proof {
        assert(a@ =~= b@);
    }
    true
}

/// Whether some string in `v` has exactly the characters of `x`.
pub fn vec_contains_str(v: &Vec<String>, x: &str) -> (r: bool)
    ensures
        r == (exists|i: int| 0 <= i < v@.len() && v@[i]@ == x@),
{
    let mut i: usize = 0;
    while i < v.len()
        invariant
            i <= v@.len(),
            forall|j: int| 0 <= j < i ==> v@[j]@ != x@,
        decreases v@.len() - i,
    {
        if str_eq(v[i].as_str(), x) {
            return true;
        }
        i += 1;
    }
    false
}

/// Lexicographic order on character sequences, by code point.
pub open spec fn spec_chars_cmp(a: Seq<char>, b: Seq<char>) -> Ordering
    decreases a.len() + b.len(),
{
    if a.len() == 0 && b.len() == 0 {
        Ordering::Equal
    } else if a.len() == 0 {
        Ordering::Less
    } else if b.len() == 0 {
        Ordering::Greater
    } else if (a[0] as u32) < (b[0] as u32) {
        Ordering::Less
    } else if (a[0] as u32) > (b[0] as u32) {
        Ordering::Greater
    } else {
        spec_chars_cmp(a.drop_first(), b.drop_first())
    }
}

proof fn lemma_chars_cmp_step(a: Seq<char>, b: Seq<char>, i: int)
    requires
        0 <= i < a.len(),
        0 <= i < b.len(),
        a[i] == b[i],
    ensures
        spec_chars_cmp(a.skip(i), b.skip(i)) == spec_chars_cmp(a.skip(i + 1), b.skip(i + 1)),
{
    assert(a.skip(i).drop_first() =~= a.skip(i + 1));
    assert(b.skip(i).drop_first() =~= b.skip(i + 1));
}

/// Compares two strings lexicographically by code point.
pub fn str_cmp(a: &str, b: &str) -> (o: Ordering)
    ensures
        o == spec_chars_cmp(a@, b@),
{
    let na = a.unicode_len();
    let nb = b.unicode_len();
    let mut i: usize = 0;
    proof {
        assert(a@.skip(0) =~= a@);
        assert(b@.skip(0) =~= b@);
    }
    while i < na && i < nb
        invariant
            na == a@.len(),
            nb == b@.len(),
            i <= na,
            i <= nb,
            spec_chars_cmp(a@, b@) == spec_chars_cmp(a@.skip(i as int), b@.skip(i as int)),
        decreases na - i,
    {
        let ca = a.get_char(i) as u32;
        let cb = b.get_char(i) as u32;
        if ca < cb {
            return Ordering::Less;
        }
        if ca > cb {
            return Ordering::Greater;
        }
        proof {
            lemma_chars_cmp_step(a@, b@, i as int);
        }
        i += 1;
    }
    if na < nb {
        Ordering::Less
    } else if na > nb {
        Ordering::Greater
    } else {
        Ordering::Equal
    }
}

/// Comparing a sequence with itself yields `Equal`.
pub proof fn lemma_chars_cmp_refl(a: Seq<char>)
    ensures
        spec_chars_cmp(a, a) == Ordering::Equal,
    decreases a.len(),
{
    if a.len() > 0 {
        lemma_chars_cmp_refl(a.drop_first());
    }
}

/// Sequences that compare `Equal` compare alike against any third.
pub proof fn lemma_chars_cmp_congr(a: Seq<char>, b: Seq<char>, c: Seq<char>)
    requires
        spec_chars_cmp(a, b) == Ordering::Equal,
    ensures
        spec_chars_cmp(a, c) == spec_chars_cmp(b, c),
        spec_chars_cmp(c, a) == spec_chars_cmp(c, b),
    decreases a.len() + b.len() + c.len(),
{
    if a.len() > 0 && b.len() > 0 && c.len() > 0 {
        if !((a[0] as u32) < (c[0] as u32)) && !((a[0] as u32) > (c[0] as u32)) {
            lemma_chars_cmp_congr(a.drop_first(), b.drop_first(), c.drop_first());
        }
    }
}

/// Swapping the arguments reverses the comparison.
pub proof fn lemma_chars_cmp_flip(a: Seq<char>, b: Seq<char>)
    ensures
        spec_chars_cmp(b, a) == (match spec_chars_cmp(a, b) {
            Ordering::Less => Ordering::Greater,
            Ordering::Equal => Ordering::Equal,
            Ordering::Greater => Ordering::Less,
        }),
    decreases a.len() + b.len(),
{
    if a.len() > 0 && b.len() > 0 && !((a[0] as u32) < (b[0] as u32)) && !((a[0] as u32) > (
    b[0] as u32)) {
        lemma_chars_cmp_flip(a.drop_first(), b.drop_first());
    }
}

/// The order is transitive in its non-strict form.
pub proof fn lemma_chars_cmp_trans(a: Seq<char>, b: Seq<char>, c: Seq<char>)
    requires
        spec_chars_cmp(a, b) != Ordering::Greater,
        spec_chars_cmp(b, c) != Ordering::Greater,
    ensures
        spec_chars_cmp(a, c) != Ordering::Greater,
    decreases a.len() + b.len() + c.len(),
{
    if a.len() > 0 && b.len() > 0 && c.len() > 0 && !((a[0] as u32) < (c[0] as u32)) {
        assert((a[0] as u32) <= (b[0] as u32));
        assert((b[0] as u32) <= (c[0] as u32));
        lemma_chars_cmp_trans(a.drop_first(), b.drop_first(), c.drop_first());
    }
}

/// The order is transitive in its strict form.
pub proof fn lemma_chars_cmp_lt_trans(a: Seq<char>, b: Seq<char>, c: Seq<char>)
    requires
        spec_chars_cmp(a, b) == Ordering::Less,
        spec_chars_cmp(b, c) != Ordering::Greater,
    ensures
        spec_chars_cmp(a, c) == Ordering::Less,
    decreases a.len() + b.len() + c.len(),
{
    if a.len() == 0 {
        assert(b.len() > 0);
        assert(c.len() > 0);
    } else {
        assert(b.len() > 0);
        assert(c.len() > 0);
        if !((a[0] as u32) < (c[0] as u32)) {
            assert((a[0] as u32) <= (b[0] as u32));
            assert((b[0] as u32) <= (c[0] as u32));
            lemma_chars_cmp_lt_trans(a.drop_first(), b.drop_first(), c.drop_first());
        }
    }
}

/// The sequence with leading whitespace removed.
pub open spec fn trim_start_rec(s: Seq<char>) -> Seq<char>
    decreases s.len(),
{
    if s.len() > 0 && is_space_char(s[0]) {
        trim_start_rec(s.drop_first())
    } else {
        s
    }
}

/// The sequence with trailing whitespace removed.
pub open spec fn trim_end_rec(s: Seq<char>) -> Seq<char>
    decreases s.len(),
{
    if s.len() > 0 && is_space_char(s.last()) {
        trim_end_rec(s.drop_last())
    } else {
        s
    }
}

/// What `str::trim` returns: the sequence without leading or trailing
/// whitespace.
pub open spec fn trim_spec(s: Seq<char>) -> Seq<char> {
    trim_end_rec(trim_start_rec(s))
}

proof fn lemma_trim_start_skip(s: Seq<char>, lo: int)
    requires
        0 <= lo <= s.len(),
        forall|j: int| 0 <= j < lo ==> is_space_char(s[j]),
        lo == s.len() || !is_space_char(s[lo]),
    ensures
        trim_start_rec(s) == s.skip(lo),
    decreases lo,
{
    if lo == 0 {
        assert(s.skip(0) =~= s);
    } else {
        assert(is_space_char(s[0]));
        lemma_trim_start_skip(s.drop_first(), lo - 1);
        assert(s.drop_first().skip(lo - 1) =~= s.skip(lo));
    }
}

proof fn lemma_trim_end_take(s: Seq<char>, hi: int)
    requires
        0 <= hi <= s.len(),
        forall|j: int| hi <= j < s.len() ==> is_space_char(s[j]),
        hi == 0 || !is_space_char(s[hi - 1]),
    ensures
        trim_end_rec(s) == s.take(hi),
    decreases s.len() - hi,
{
    if hi == s.len() {
        assert(s.take(hi) =~= s);
    } else {
        assert(is_space_char(s.last()));
        lemma_trim_end_take(s.drop_last(), hi);
        assert(s.drop_last() =~= s.take(s.len() - 1));
        assert(s.drop_last().take(hi) =~= s.take(hi));
    }
}

/// The characters of `v` without leading or trailing whitespace.
pub fn trim_chars(v: &Vec<char>) -> (r: Vec<char>)
    ensures
        r@ == trim_spec(v@),
{
    let n = v.len();
    let mut lo: usize = 0;
    while lo < n && is_space(v[lo])
        invariant
            n == v@.len(),
            lo <= n,
            forall|j: int| 0 <= j < lo ==> is_space_char(v@[j]),
        decreases n - lo,
    {
        lo += 1;
    }
    proof {
        lemma_trim_start_skip(v@, lo as int);
    }
    let ghost t = v@.skip(lo as int);
    let mut hi: usize = n;
    while hi > lo && is_space(v[hi - 1])
        invariant
            n == v@.len(),
            lo <= hi <= n,
            forall|j: int| hi <= j < n ==> is_space_char(v@[j]),
        decreases hi,
    {
        hi -= 1;
    }
    proof {
        assert(forall|j: int| hi - lo <= j < t.len() ==> is_space_char(#[trigger] t[j]));
        assert(hi - lo == 0 || !is_space_char(t[hi - lo - 1]));
        lemma_trim_end_take(t, hi - lo);
    }
    let mut r: Vec<char> = Vec::new();
    let mut i: usize = lo;
    while i < hi
        invariant
            n == v@.len(),
            lo <= i <= hi <= n,
            r@ =~= v@.subrange(lo as int, i as int),
        decreases hi - i,
    {
        r.push(v[i]);
        i += 1;
    }
    proof {
        assert(r@ =~= t.take(hi - lo));
    }
    r
}

/// The first position of `c` in `s`, if any.
pub open spec fn find_char_spec(s: Seq<char>, c: char) -> Option<int>
    decreases s.len(),
{
    if s.len() == 0 {
        None
    } else if s[0] == c {
        Some(0int)
    } else {
        match find_char_spec(s.drop_first(), c) {
            None => None,
            Some(i) => Some(i + 1),
        }
    }
}

pub proof fn lemma_find_char(s: Seq<char>, c: char)
    ensures
        match find_char_spec(s, c) {
            None => forall|j: int| 0 <= j < s.len() ==> s[j] != c,
            Some(i) => 0 <= i < s.len() && s[i] == c && forall|j: int| 0 <= j < i ==> s[j] != c,
        },
    decreases s.len(),
{
    if s.len() > 0 && s[0] != c {
        lemma_find_char(s.drop_first(), c);
        assert(forall|k: int| 1 <= k < s.len() ==> #[trigger] s[k] == s.drop_first()[k - 1]);
        match find_char_spec(s.drop_first(), c) {
            None => {
                assert(forall|j: int| 0 <= j < s.len() ==> s[j] != c);
            },
            Some(i) => {
                assert(s[i + 1] == c);
                assert(forall|j: int| 0 <= j < i + 1 ==> s[j] != c);
            },
        }
    }
}

proof fn lemma_find_char_from(s: Seq<char>, c: char, i: int)
    requires
        0 <= i <= s.len(),
        forall|j: int| 0 <= j < i ==> s[j] != c,
    ensures
        i == s.len() ==> find_char_spec(s, c) == (if i < s.len() { Some(i) } else { None::<int> }),
        i < s.len() && s[i] == c ==> find_char_spec(s, c) == Some(i),
    decreases i,
{
    if i == 0 {
    } else {
        assert(s[0] != c);
        lemma_find_char_from(s.drop_first(), c, i - 1);
        assert(forall|j: int| 0 <= j < i - 1 ==> s.drop_first()[j] == s[j + 1]);
    }
}

/// The index of the first occurrence of `c`, scanning left to right.
pub fn find_char(v: &Vec<char>, c: char) -> (r: Option<usize>)
    ensures
        match r {
            None => find_char_spec(v@, c) is None,
            Some(i) => find_char_spec(v@, c) == Some(i as int),
        },
{
    let n = v.len();
    let mut i: usize = 0;
    while i < n
        invariant
            n == v@.len(),
            i <= n,
            forall|j: int| 0 <= j < i ==> v@[j] != c,
        decreases n - i,
    {
        if v[i] == c {
            proof {
                lemma_find_char_from(v@, c, i as int);
            }
            return Some(i);
        }
        i += 1;
    }
    proof {
        lemma_find_char_from(v@, c, n as int);
    }
    None
}

/// Whether `p` occurs in `s` starting at position `i`.
pub open spec fn contains_at(s: Seq<char>, p: Seq<char>, i: int) -> bool {
    0 <= i && i + p.len() <= s.len() && s.subrange(i, i + p.len()) == p
}

/// Whether `p` occurs anywhere in `s`.
pub open spec fn contains_seq(s: Seq<char>, p: Seq<char>) -> bool {
    exists|i: int| contains_at(s, p, i)
}

/// Whether `p` occurs in `v` starting exactly at position `i`.
fn matches_at(v: &Vec<char>, p: &Vec<char>, i: usize) -> (r: bool)
    requires
        i + p@.len() <= v@.len(),
    ensures
        r == contains_at(v@, p@, i as int),
{
    let n = v.len();
    let m = p.len();
    let mut j: usize = 0;
    while j < m
        invariant
            n == v@.len(),
            m == p@.len(),
            i + m <= n,
            j <= m,
            forall|t: int| 0 <= t < j ==> v@[i + t] == p@[t],
        decreases m - j,
    {
        if v[i + j] != p[j] {
            proof {
                assert(v@.subrange(i as int, i + m)[j as int] != p@[j as int]);
            }
            return false;
        }
        j += 1;
    }
    proof {
        assert(v@.subrange(i as int, i + m) =~= p@);
    }
    true
}

/// Whether the characters of `p` occur as a contiguous run in `v`.
pub fn contains_chars(v: &Vec<char>, p: &Vec<char>) -> (r: bool)
    ensures
        r == contains_seq(v@, p@),
{
    let n = v.len();
    let m = p.len();
    if m > n {
        proof {
            assert(forall|i: int| !contains_at(v@, p@, i));
        }
        return false;
    }
    if m == 0 {
        proof {
            assert(v@.subrange(0, 0) =~= p@);
            assert(contains_at(v@, p@, 0));
        }
        return true;
    }
    let mut i: usize = 0;
    while i <= n - m
        invariant
            n == v@.len(),
            m == p@.len(),
            1 <= m <= n,
            i <= n - m + 1,
            forall|k: int| 0 <= k < i ==> !contains_at(v@, p@, k),
        decreases n - m - i + 1,
    {
        if matches_at(v, p, i) {
            return true;
        }
        i += 1;
    }
    proof {
        assert(forall|k: int| k > n - m ==> !contains_at(v@, p@, k));
        assert(forall|k: int| !contains_at(v@, p@, k));
    }
    false
}

/// Whether `s` ends with `p`.
pub open spec fn ends_with_spec(s: Seq<char>, p: Seq<char>) -> bool {
    p.len() <= s.len() && s.subrange(s.len() - p.len(), s.len() as int) == p
}

/// Whether the characters of `v` end with those of `p`.
pub fn ends_with_chars(v: &Vec<char>, p: &Vec<char>) -> (r: bool)
    ensures
        r == ends_with_spec(v@, p@),
{
    let n = v.len();
    let m = p.len();
    if m > n {
        return false;
    }
    let mut j: usize = 0;
    while j < m
        invariant
            n == v@.len(),
            m == p@.len(),
            m <= n,
            j <= m,
            forall|t: int| 0 <= t < j ==> v@[n - m + t] == p@[t],
        decreases m - j,
    {
        if v[n - m + j] != p[j] {
            proof {
                assert(v@.subrange(n - m, n as int)[j as int] != p@[j as int]);
            }
            return false;
        }
        j += 1;
    }
    proof {
        assert(v@.subrange(n - m, n as int) =~= p@);
    }
    true
}

/// Whether `s` starts with `p`.
pub open spec fn starts_with_spec(s: Seq<char>, p: Seq<char>) -> bool {
    p.len() <= s.len() && s.subrange(0, p.len() as int) == p
}

/// Whether the characters of `v` start with those of `p`.
pub fn starts_with_chars(v: &Vec<char>, p: &Vec<char>) -> (r: bool)
    ensures
        r == starts_with_spec(v@, p@),
{
    let n = v.len();
    let m = p.len();
    if m > n {
        return false;
    }
    let mut j: usize = 0;
    while j < m
        invariant
            n == v@.len(),
            m == p@.len(),
            m <= n,
            j <= m,
            forall|t: int| 0 <= t < j ==> v@[t] == p@[t],
        decreases m - j,
    {
        if v[j] != p[j] {
            proof {
                assert(v@.subrange(0, m as int)[j as int] != p@[j as int]);
            }
            return false;
        }
        j += 1;
    }
    proof {
        assert(v@.subrange(0, m as int) =~= p@);
    }
    true
}

/// Whether string `a` starts with the characters of `p`.
pub fn str_starts_with(a: &str, p: &str) -> (r: bool)
    ensures
        r == starts_with_spec(a@, p@),
{
    let na = a.unicode_len();
    let np = p.unicode_len();
    if np > na {
        return false;
    }
    let mut j: usize = 0;
    while j < np
        invariant
            na == a@.len(),
            np == p@.len(),
            np <= na,
            j <= np,
            forall|t: int| 0 <= t < j ==> a@[t] == p@[t],
        decreases np - j,
    {
        if a.get_char(j) != p.get_char(j) {
            proof {
                assert(a@.subrange(0, np as int)[j as int] != p@[j as int]);
            }
            return false;
        }
        j += 1;
    }
    proof {
        assert(a@.subrange(0, np as int) =~= p@);
    }
    true
}

/// The characters of `v` from `from` (inclusive) to `to` (exclusive).
pub fn subrange_chars(v: &Vec<char>, from: usize, to: usize) -> (r: Vec<char>)
    requires
        from <= to <= v@.len(),
    ensures
        r@ == v@.subrange(from as int, to as int),
{
    let mut r: Vec<char> = Vec::new();
    let mut i: usize = from;
    while i < to
        invariant
            from <= i <= to <= v@.len(),
            r@ =~= v@.subrange(from as int, i as int),
        decreases to - i,
    {
        r.push(v[i]);
        i += 1;
    }
    proof {
        assert(r@ =~= v@.subrange(from as int, to as int));
    }
    r
}

} // verus!
