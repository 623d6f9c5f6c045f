//! Parsing and total ordering of heterogeneous addon version strings.
//!
//! Handled forms: semantic versions ("1.2.3", "1.2.3-beta"), prefixed
//! versions ("v1.2.3", "r32"), short versions ("1.2", "1"), date versions
//! ("2024.01.15"), and branch versions ("main-latest", treated as older
//! than every tagged release).

use vstd::prelude::*;
use core::cmp::Ordering;
use crate::chars::{
    chars_of, contains_chars, contains_seq, ends_with_chars, ends_with_spec, find_char,
    find_char_spec, opt_str_view, spec_chars_cmp, string_of, str_cmp, subrange_chars, trim_chars,
    trim_spec, trim_start_rec, trim_end_rec, is_space_char, lemma_find_char,
};

verus! {

/// A parsed version, ready for comparison.
#[derive(Debug, Clone, PartialEq, Eq)]
pub struct Version {
    /// Numeric components, e.g. [1, 2, 3] for "1.2.3".
    pub components: Vec<u32>,
    /// Pre-release tag, e.g. "beta", "alpha", "rc1".
    pub prerelease: Option<String>,
    /// The string the version was parsed from, kept for display.
    pub original: String,
    /// Whether this tracks a moving branch rather than a tagged release.
    pub is_branch: bool,
}

/// Whether trimmed text denotes a branch-tracking version.
pub open spec fn spec_is_branch_text(t: Seq<char>) -> bool {
    ends_with_spec(t, "-latest"@) || contains_seq(t, "-branch"@)
}

/// Whether a character is one of the accepted version prefix letters.
pub open spec fn is_prefix_letter(c: char) -> bool {
    c == 'v' || c == 'V' || c == 'r' || c == 'R'
}

/// The text with one optional leading prefix letter removed.
pub open spec fn spec_strip_prefix(t: Seq<char>) -> Seq<char> {
    if t.len() > 0 && is_prefix_letter(t[0]) {
        t.drop_first()
    } else {
        t
    }
}

/// The text up to (and excluding) the first '+': build metadata is
/// discarded.
pub open spec fn spec_before_plus(t: Seq<char>) -> Seq<char> {
    match find_char_spec(t, '+') {
        None => t,
        Some(i) => t.subrange(0, i),
    }
}

/// The numeric body: before the first '+', then before the first '-'.
pub open spec fn spec_num_part(t: Seq<char>) -> Seq<char> {
    let u = spec_before_plus(t);
    match find_char_spec(u, '-') {
        None => u,
        Some(i) => u.subrange(0, i),
    }
}

/// The pre-release tag: what follows the first '-' of the body, if any.
pub open spec fn spec_pre_part(t: Seq<char>) -> Option<Seq<char>> {
    let u = spec_before_plus(t);
    match find_char_spec(u, '-') {
        None => None,
        Some(i) => Some(u.subrange(i + 1, u.len() as int)),
    }
}

/// Whether `c` is an ASCII decimal digit.
pub open spec fn is_digit_char(c: char) -> bool {
    48 <= (c as u32) <= 57
}

/// Whether nonempty text consists of ASCII digits only.
pub open spec fn all_digits(t: Seq<char>) -> bool {
    t.len() > 0 && forall|i: int| 0 <= i < t.len() ==> is_digit_char(t[i])
}

/// The decimal value of digit text.
pub open spec fn digits_val(t: Seq<char>) -> int
    decreases t.len(),
{
    if t.len() == 0 {
        0
    } else {
        digits_val(t.drop_last()) * 10 + ((t.last() as u32) - 48)
    }
}

/// One dot-separated piece as a component list: the value if the piece is
/// a representable number, nothing otherwise.
pub open spec fn spec_component(t: Seq<char>) -> Seq<u32> {
    if all_digits(t) && 0 <= digits_val(t) <= u32::MAX {
        seq![digits_val(t) as u32]
    } else {
        Seq::empty()
    }
}

/// The numeric components of the body: pieces split on '.', keeping only
/// those that parse as u32 values, in order.
pub open spec fn spec_components(t: Seq<char>) -> Seq<u32>
    decreases t.len(),
    via spec_components_decreases
{
    match find_char_spec(t, '.') {
        None => spec_component(t),
        Some(i) => spec_component(t.subrange(0, i)) + spec_components(
            t.subrange(i + 1, t.len() as int),
        ),
    }
}

#[via_fn]
proof fn spec_components_decreases(t: Seq<char>) {
    lemma_find_char(t, '.');
}

/// Whether parsing marks the string as a branch version.
pub open spec fn spec_parse_is_branch(s: Seq<char>) -> bool {
    spec_is_branch_text(trim_spec(s))
}

/// The numeric components parsing yields for the string.
pub open spec fn spec_parse_components(s: Seq<char>) -> Seq<u32> {
    if spec_parse_is_branch(s) {
        Seq::empty()
    } else {
        spec_components(spec_num_part(spec_strip_prefix(trim_spec(s))))
    }
}

/// The pre-release tag parsing yields for the string.
pub open spec fn spec_parse_prerelease(s: Seq<char>) -> Option<Seq<char>> {
    if spec_parse_is_branch(s) {
        None
    } else {
        spec_pre_part(spec_strip_prefix(trim_spec(s)))
    }
}

/// What `Version::parse` returns for input `s`.
pub open spec fn is_parse_of(v: Version, s: Seq<char>) -> bool {
    &&& v.original@ == s
    &&& v.is_branch == spec_parse_is_branch(s)
    &&& v.components@ == spec_parse_components(s)
    &&& opt_str_view(v.prerelease) == spec_parse_prerelease(s)
}

proof fn lemma_digits_val_nonneg(t: Seq<char>)
    requires
        forall|i: int| 0 <= i < t.len() ==> is_digit_char(t[i]),
    ensures
        digits_val(t) >= 0,
    decreases t.len(),
{
    if t.len() > 0 {
        lemma_digits_val_nonneg(t.drop_last());
    }
}

proof fn lemma_digits_val_monotone(t: Seq<char>, k: int)
    requires
        forall|i: int| 0 <= i < t.len() ==> is_digit_char(t[i]),
        0 <= k <= t.len(),
    ensures
        digits_val(t) >= digits_val(t.take(k)),
    decreases t.len() - k,
{
    if k < t.len() {
        lemma_digits_val_monotone(t, k + 1);
        assert(t.take(k + 1).drop_last() =~= t.take(k));
        assert(t.take(k + 1).last() == t[k]);
        lemma_digits_val_nonneg(t.take(k));
    } else {
        assert(t.take(k) =~= t);
    }
}

/// Parses one dot-separated piece and appends its value to `components`
/// when it is a representable number; drops it silently otherwise.
fn push_component(components: &mut Vec<u32>, piece: &Vec<char>)
    ensures
        final(components)@ == old(components)@ + spec_component(piece@),
{
    let n = piece.len();
    if n == 0 {
        proof {
            assert(final(components)@ =~= old(components)@ + spec_component(piece@));
        }
        return ;
    }
    let mut val: u32 = 0;
    let mut i: usize = 0;
    while i < n
        invariant
            n == piece@.len(),
            i <= n,
            forall|j: int| 0 <= j < i ==> is_digit_char(piece@[j]),
            val == digits_val(piece@.take(i as int)),
        decreases n - i,
    {
        let c = piece[i] as u32;
        if c < 48 || c > 57 {
            proof {
                assert(!all_digits(piece@));
                assert(components@ =~= components@ + spec_component(piece@));
            }
            return ;
        }
        let d = c - 48;
        if val > (u32::MAX - d) / 10 {
            proof {
                assert(digits_val(piece@.take(i + 1)) > u32::MAX) by {
                    assert(piece@.take(i + 1).drop_last() =~= piece@.take(i as int));
                    assert(piece@.take(i + 1).last() == piece@[i as int]);
                    assert(val * 10 + d > u32::MAX) by (nonlinear_arith)
                        requires
                            val > (u32::MAX - d) / 10,
                            0 <= d <= 9,
                    ;
                }
                if all_digits(piece@) {
                    lemma_digits_val_monotone(piece@, i + 1);
                }
                assert(spec_component(piece@) =~= Seq::<u32>::empty());
                assert(components@ =~= components@ + spec_component(piece@));
            }
            return ;
        }
        proof {
            assert(val * 10 + d <= u32::MAX) by (nonlinear_arith)
                requires
                    val <= (u32::MAX - d) / 10,
                    0 <= d <= 9,
            ;
            assert(piece@.take(i + 1).drop_last() =~= piece@.take(i as int));
            assert(piece@.take(i + 1).last() == piece@[i as int]);
        }
        val = val * 10 + d;
        i += 1;
    }
    proof {
        assert(piece@.take(n as int) =~= piece@);
        assert(all_digits(piece@));
        assert(spec_component(piece@) == seq![digits_val(piece@) as u32]);
    }
    components.push(val);
    proof {
        assert(final(components)@ =~= old(components)@ + spec_component(piece@));
    }
}

/// Splits the numeric body on '.' and collects the representable pieces.
fn parse_components(num_part: &Vec<char>) -> (components: Vec<u32>)
    ensures
        components@ == spec_components(num_part@),
{
    let mut components: Vec<u32> = Vec::new();
    let mut rest: Vec<char> = subrange_chars(num_part, 0, num_part.len());
    proof {
        assert(rest@ =~= num_part@);
        assert(components@ + spec_components(rest@) =~= spec_components(rest@));
    }
    loop
        invariant_except_break
            spec_components(num_part@) == components@ + spec_components(rest@),
        ensures
            components@ == spec_components(num_part@),
        decreases rest@.len(),
    {
        proof {
            lemma_find_char(rest@, '.');
        }
        let ghost pre = components@;
        match find_char(&rest, '.') {
            Some(i) => {
                let piece = subrange_chars(&rest, 0, i);
                push_component(&mut components, &piece);
                let next = subrange_chars(&rest, i + 1, rest.len());
                proof {
                    assert(spec_components(rest@) == spec_component(piece@) + spec_components(
                        next@,
                    ));
                    assert(pre + spec_components(rest@) =~= components@ + spec_components(next@));
                }
                rest = next;
            },
            None => {
                push_component(&mut components, &rest);
                proof {
                    assert(spec_components(rest@) == spec_component(rest@));
                    assert(pre + spec_components(rest@) =~= components@);
                }
                break ;
            },
        }
    }
    components
}

impl Version {
    /// Parses a version string.
    ///
    /// In order: branch markers ("-latest" suffix, "-branch" anywhere) win
    /// and leave no numeric components; one leading prefix letter is
    /// stripped; build metadata after '+' is discarded; a '-' separates
    /// the pre-release tag; the body splits on '.' keeping the pieces
    /// that parse as numbers.
    pub fn parse(version_str: &str) -> (r: Version)
        ensures
            is_parse_of(r, version_str@),
    {
        let original = String::from_str(version_str);
        let raw = chars_of(version_str);
        let trimmed = trim_chars(&raw);
        let latest = chars_of("-latest");
        let branch_marker = chars_of("-branch");
        if ends_with_chars(&trimmed, &latest) || contains_chars(&trimmed, &branch_marker) {
            return Version { components: Vec::new(), prerelease: None, original, is_branch: true };
        }
        let cleaned = if trimmed.len() > 0 && (trimmed[0] == 'v' || trimmed[0] == 'V' || trimmed[0]
            == 'r' || trimmed[0] == 'R') {
            let c = subrange_chars(&trimmed, 1, trimmed.len());
            proof {
                assert(c@ =~= spec_strip_prefix(trimmed@));
            }
            c
        } else {
            let c = subrange_chars(&trimmed, 0, trimmed.len());
            proof {
                assert(c@ =~= spec_strip_prefix(trimmed@));
            }
            c
        };
        proof {
            lemma_find_char(cleaned@, '+');
        }
        let body = match find_char(&cleaned, '+') {
            Some(i) => subrange_chars(&cleaned, 0, i),
            None => cleaned,
        };
        proof {
            assert(body@ == spec_before_plus(spec_strip_prefix(trimmed@)));
            lemma_find_char(body@, '-');
        }
        let (num_part, prerelease) = match find_char(&body, '-') {
            Some(i) => {
                let tag = subrange_chars(&body, i + 1, body.len());
                (subrange_chars(&body, 0, i), Some(string_of(&tag)))
            },
            None => (body, None),
        };
        proof {
            assert(num_part@ == spec_num_part(spec_strip_prefix(trimmed@)));
            assert(opt_str_view(prerelease) == spec_pre_part(spec_strip_prefix(trimmed@)));
        }
        let components = parse_components(&num_part);
        Version { components, prerelease, original, is_branch: false }
    }

    /// Total order on parsed versions: branch versions rank below every
    /// tagged version; then numeric components compare pairwise with
    /// missing trailing components read as 0; on a tie, no pre-release tag
    /// ranks above having one, and two tags compare lexicographically.
    pub fn compare(&self, other: &Version) -> (o: Ordering)
        ensures
            o == spec_version_cmp(*self, *other),
    {
        if self.is_branch && other.is_branch {
            return Ordering::Equal;
        }
        if self.is_branch {
            return Ordering::Less;
        }
        if other.is_branch {
            return Ordering::Greater;
        }
        let na = self.components.len();
        let nb = other.components.len();
        let max = if na > nb {
            na
        } else {
            nb
        };
        let mut i: usize = 0;
        proof {
            assert(pad_skip(self.components@, 0) =~= self.components@);
            assert(pad_skip(other.components@, 0) =~= other.components@);
        }
        while i < max
            invariant
                !self.is_branch,
                !other.is_branch,
                na == self.components@.len(),
                nb == other.components@.len(),
                max == if na > nb { na as int } else { nb as int },
                i <= max,
                spec_cmp_padded(self.components@, other.components@) == spec_cmp_padded(
                    pad_skip(self.components@, i as int),
                    pad_skip(other.components@, i as int),
                ),
            decreases max - i,
        {
            let x = if i < na {
                self.components[i]
            } else {
                0
            };
            let y = if i < nb {
                other.components[i]
            } else {
                0
            };
            proof {
                let pa = pad_skip(self.components@, i as int);
                let pb = pad_skip(other.components@, i as int);
                assert(pa.len() > 0 ==> pa[0] == self.components@[i as int]);
                assert(pb.len() > 0 ==> pb[0] == other.components@[i as int]);
                assert(pa.len() > 0 || pb.len() > 0);
                assert((if pa.len() > 0 { pa[0] } else { 0u32 }) == x);
                assert((if pb.len() > 0 { pb[0] } else { 0u32 }) == y);
            }
            if x < y {
                proof {
                    assert(spec_cmp_padded(
                        pad_skip(self.components@, i as int),
                        pad_skip(other.components@, i as int),
                    ) == Ordering::Less);
                }
                return Ordering::Less;
            }
            if x > y {
                proof {
                    assert(spec_cmp_padded(
                        pad_skip(self.components@, i as int),
                        pad_skip(other.components@, i as int),
                    ) == Ordering::Greater);
                }
                return Ordering::Greater;
            }
            proof {
                lemma_cmp_padded_step(self.components@, other.components@, i as int);
            }
            i += 1;
        }
        proof {
            assert(pad_skip(self.components@, max as int) =~= Seq::<u32>::empty());
            assert(pad_skip(other.components@, max as int) =~= Seq::<u32>::empty());
        }
        match (&self.prerelease, &other.prerelease) {
            (Option::None, Option::Some(_)) => Ordering::Greater,
            (Option::Some(_), Option::None) => Ordering::Less,
            (Option::Some(a), Option::Some(b)) => str_cmp(a.as_str(), b.as_str()),
            (Option::None, Option::None) => Ordering::Equal,
        }
    }

    /// Whether this version ranks strictly above `other`.
    pub fn is_newer_than(&self, other: &Version) -> (r: bool)
        ensures
            r == (spec_version_cmp(*self, *other) == Ordering::Greater),
    {
        match self.compare(other) {
            Ordering::Greater => true,
            _ => false,
        }
    }
}

/// The sequence with its first `i` entries dropped, empty when `i` runs
/// past the end.
pub open spec fn pad_skip(a: Seq<u32>, i: int) -> Seq<u32> {
    if i <= a.len() {
        a.skip(i)
    } else {
        Seq::empty()
    }
}

/// Pairwise order on component lists, reading a missing trailing
/// component as 0.
pub open spec fn spec_cmp_padded(a: Seq<u32>, b: Seq<u32>) -> Ordering
    decreases a.len() + b.len(),
{
    if a.len() == 0 && b.len() == 0 {
        Ordering::Equal
    } else {
        let x: u32 = if a.len() > 0 {
            a[0]
        } else {
            0
        };
        let y: u32 = if b.len() > 0 {
            b[0]
        } else {
            0
        };
        if x < y {
            Ordering::Less
        } else if x > y {
            Ordering::Greater
        } else {
            spec_cmp_padded(
                if a.len() > 0 {
                    a.drop_first()
                } else {
                    a
                },
                if b.len() > 0 {
                    b.drop_first()
                } else {
                    b
                },
            )
        }
    }
}

proof fn lemma_cmp_padded_step(a: Seq<u32>, b: Seq<u32>, i: int)
    requires
        0 <= i,
        i < a.len() || i < b.len(),
        (if i < a.len() { a[i] } else { 0u32 }) == (if i < b.len() { b[i] } else { 0u32 }),
    ensures
        spec_cmp_padded(pad_skip(a, i), pad_skip(b, i)) == spec_cmp_padded(
            pad_skip(a, i + 1),
            pad_skip(b, i + 1),
        ),
{
    if i < a.len() {
        assert(pad_skip(a, i).drop_first() =~= pad_skip(a, i + 1));
    } else {
        assert(pad_skip(a, i) =~= Seq::<u32>::empty());
        assert(pad_skip(a, i + 1) =~= Seq::<u32>::empty());
    }
    if i < b.len() {
        assert(pad_skip(b, i).drop_first() =~= pad_skip(b, i + 1));
    } else {
        assert(pad_skip(b, i) =~= Seq::<u32>::empty());
        assert(pad_skip(b, i + 1) =~= Seq::<u32>::empty());
    }
}

/// Order on optional pre-release tags: a tagged version ranks below an
/// untagged one; two tags compare lexicographically.
pub open spec fn spec_cmp_pre(a: Option<Seq<char>>, b: Option<Seq<char>>) -> Ordering {
    match (a, b) {
        (Option::None, Option::Some(_)) => Ordering::Greater,
        (Option::Some(_), Option::None) => Ordering::Less,
        (Option::Some(x), Option::Some(y)) => spec_chars_cmp(x, y),
        (Option::None, Option::None) => Ordering::Equal,
    }
}

/// The total order `Version::compare` decides.
pub open spec fn spec_version_cmp(a: Version, b: Version) -> Ordering {
    if a.is_branch && b.is_branch {
        Ordering::Equal
    } else if a.is_branch {
        Ordering::Less
    } else if b.is_branch {
        Ordering::Greater
    } else if spec_cmp_padded(a.components@, b.components@) != Ordering::Equal {
        spec_cmp_padded(a.components@, b.components@)
    } else {
        spec_cmp_pre(opt_str_view(a.prerelease), opt_str_view(b.prerelease))
    }
}

/// The order of two version strings, as parsing and comparing decides it.
pub open spec fn spec_cmp_versions(a: Seq<char>, b: Seq<char>) -> Ordering {
    if spec_parse_is_branch(a) && spec_parse_is_branch(b) {
        Ordering::Equal
    } else if spec_parse_is_branch(a) {
        Ordering::Less
    } else if spec_parse_is_branch(b) {
        Ordering::Greater
    } else if spec_cmp_padded(spec_parse_components(a), spec_parse_components(b))
        != Ordering::Equal {
        spec_cmp_padded(spec_parse_components(a), spec_parse_components(b))
    } else {
        spec_cmp_pre(spec_parse_prerelease(a), spec_parse_prerelease(b))
    }
}

/// Whether `available` is an update over `installed`: true exactly when
/// the available version ranks strictly greater under the total order.
pub fn is_update_available(installed: &str, available: &str) -> (r: bool)
    ensures
        r == (spec_cmp_versions(available@, installed@) == Ordering::Greater),
{
    let installed_ver = Version::parse(installed);
    let available_ver = Version::parse(available);
    available_ver.is_newer_than(&installed_ver)
}

/// Comparing a parsed version with itself yields `Equal`.
///
/// Every parsed version ranks equal to itself: version comparison is
/// reflexive.
pub proof fn lemma_compare_reflexive(v: Version)
    ensures
        spec_version_cmp(v, v) == Ordering::Equal,
{
    lemma_cmp_padded_reflexive(v.components@);
    match v.prerelease {
        Option::None => {},
        Option::Some(p) => {
            crate::chars::lemma_chars_cmp_refl(p@);
        },
    }
}

proof fn lemma_cmp_padded_reflexive(a: Seq<u32>)
    ensures
        spec_cmp_padded(a, a) == Ordering::Equal,
    decreases a.len(),
{
    if a.len() > 0 {
        lemma_cmp_padded_reflexive(a.drop_first());
    }
}

/// A branch-tracking installed version is updatable to every concrete
/// version: against a non-branch candidate the candidate always ranks
/// strictly greater.
pub proof fn lemma_branch_always_updatable(installed: Seq<char>, available: Seq<char>)
    requires
        spec_parse_is_branch(installed),
        !spec_parse_is_branch(available),
    ensures
        spec_cmp_versions(available, installed) == Ordering::Greater,
{
}

proof fn lemma_trim_start_len(s: Seq<char>)
    ensures
        trim_start_rec(s).len() <= s.len(),
        s.len() > 0 && is_space_char(s[0]) ==> trim_start_rec(s).len() < s.len(),
    decreases s.len(),
{
    if s.len() > 0 && is_space_char(s[0]) {
        lemma_trim_start_len(s.drop_first());
    }
}

proof fn lemma_trim_end_len(s: Seq<char>)
    ensures
        trim_end_rec(s).len() <= s.len(),
        s.len() > 0 && is_space_char(s.last()) ==> trim_end_rec(s).len() < s.len(),
    decreases s.len(),
{
    if s.len() > 0 && is_space_char(s.last()) {
        lemma_trim_end_len(s.drop_last());
    }
}

proof fn lemma_trimmed_ends(s: Seq<char>)
    requires
        trim_spec(s) == s,
        s.len() > 0,
    ensures
        !is_space_char(s[0]),
        !is_space_char(s.last()),
{
    lemma_trim_start_len(s);
    lemma_trim_end_len(trim_start_rec(s));
    if is_space_char(s[0]) {
        assert(trim_spec(s).len() < s.len());
    }
    assert(trim_start_rec(s) == s);
    if is_space_char(s.last()) {
        assert(trim_spec(s).len() < s.len());
    }
}

proof fn lemma_ends_with_cons(p: char, s: Seq<char>, pat: Seq<char>)
    requires
        pat.len() > 0,
        pat[0] != p,
    ensures
        ends_with_spec(seq![p] + s, pat) == ends_with_spec(s, pat),
{
    let t = seq![p] + s;
    if s.len() >= pat.len() {
        assert(t.subrange(t.len() - pat.len(), t.len() as int) =~= s.subrange(
            s.len() - pat.len(),
            s.len() as int,
        ));
    } else if t.len() >= pat.len() {
        assert(t.len() == pat.len());
        if t.subrange(t.len() - pat.len(), t.len() as int) == pat {
            assert(t.subrange(0, pat.len() as int)[0] == p);
            assert(false);
        }
    }
}

proof fn lemma_contains_cons(p: char, s: Seq<char>, pat: Seq<char>)
    requires
        pat.len() > 0,
        pat[0] != p,
    ensures
        contains_seq(seq![p] + s, pat) == contains_seq(s, pat),
{
    let t = seq![p] + s;
    if contains_seq(s, pat) {
        let i = choose|i: int| crate::chars::contains_at(s, pat, i);
        assert(t.subrange(i + 1, i + 1 + pat.len()) =~= s.subrange(i, i + pat.len()));
        assert(crate::chars::contains_at(t, pat, i + 1));
    }
    if contains_seq(t, pat) {
        let i = choose|i: int| crate::chars::contains_at(t, pat, i);
        if i == 0 {
            assert(t.subrange(0, pat.len() as int)[0] == p);
            assert(false);
        } else {
            assert(s.subrange(i - 1, i - 1 + pat.len()) =~= t.subrange(i, i + pat.len()));
            assert(crate::chars::contains_at(s, pat, i - 1));
        }
    }
}

/// Normalizing is invariant under one leading prefix letter: for a
/// trimmed string that does not itself start with a prefix letter, is not
/// a branch version, and has at least one numeric component, prepending
/// 'v', 'V', 'r' or 'R' does not change the normalized form.
pub proof fn lemma_normalize_prefix_invariant(s: Seq<char>, p: char)
    requires
        is_prefix_letter(p),
        trim_spec(s) == s,
        s.len() > 0 ==> !is_prefix_letter(s[0]),
        !spec_parse_is_branch(s),
        spec_parse_components(s).len() > 0,
    ensures
        spec_normalize(seq![p] + s) == spec_normalize(s),
{
    let t = seq![p] + s;
    reveal_strlit("-latest");
    reveal_strlit("-branch");
    assert(!is_space_char(p));
    if s.len() > 0 {
        lemma_trimmed_ends(s);
        assert(t.last() == s.last());
    } else {
        assert(t.last() == p);
    }
    assert(trim_start_rec(t) == t);
    assert(trim_end_rec(t) == t);
    assert(trim_spec(t) == t);
    assert(("-latest"@).len() == 7 && ("-latest"@)[0] == '-');
    assert(("-branch"@).len() == 7 && ("-branch"@)[0] == '-');
    lemma_ends_with_cons(p, s, "-latest"@);
    lemma_contains_cons(p, s, "-branch"@);
    assert(spec_parse_is_branch(t) == spec_parse_is_branch(s));
    assert(t[0] == p);
    assert(spec_strip_prefix(t) =~= s);
    assert(spec_strip_prefix(s) == s);
    assert(spec_parse_components(t) == spec_parse_components(s));
    assert(spec_parse_prerelease(t) == spec_parse_prerelease(s));
}

/// Normalizes a version string for display: branch versions and strings
/// without numeric components pass through unchanged; otherwise the
/// parsed components are joined with '.' and the pre-release tag, if any,
/// follows after '-'.
pub fn normalize_version(version: &str) -> (r: String)
    ensures
        r@ == spec_normalize(version@),
{
    let v = Version::parse(version);
    if v.is_branch {
        return String::from_str(version);
    }
    if v.components.len() == 0 {
        return String::from_str(version);
    }
    let mut out: Vec<char> = Vec::new();
    let n = v.components.len();
    let mut i: usize = 0;
    while i < n
        invariant
            n == v.components@.len(),
            i <= n,
            out@ == spec_join_components(v.components@.take(i as int)),
        decreases n - i,
    {
        proof {
            assert(v.components@.take(i + 1).drop_last() =~= v.components@.take(i as int));
            assert(v.components@.take(i + 1).last() == v.components@[i as int]);
        }
        if i > 0 {
            out.push('.');
        }
        push_u32_chars(&mut out, v.components[i]);
        proof {
            if i == 0 {
                assert(out@ =~= spec_join_components(v.components@.take(1)));
            }
        }
        i += 1;
    }
    proof {
        assert(v.components@.take(n as int) =~= v.components@);
    }
    match v.prerelease {
        Option::Some(pre) => {
            out.push('-');
            let pre_chars = chars_of(pre.as_str());
            let mut j: usize = 0;
            while j < pre_chars.len()
                invariant
                    j <= pre_chars@.len(),
                    out@ =~= spec_join_components(v.components@) + seq!['-'] + pre_chars@.subrange(
                        0,
                        j as int,
                    ),
                decreases pre_chars@.len() - j,
            {
                out.push(pre_chars[j]);
                j += 1;
            }
            proof {
                assert(out@ =~= spec_join_components(v.components@) + seq!['-'] + pre_chars@);
            }
            string_of(&out)
        },
        Option::None => string_of(&out),
    }
}

/// What `normalize_version` returns for input `s`.
pub open spec fn spec_normalize(s: Seq<char>) -> Seq<char> {
    if spec_parse_is_branch(s) {
        s
    } else if spec_parse_components(s).len() == 0 {
        s
    } else {
        let joined = spec_join_components(spec_parse_components(s));
        match spec_parse_prerelease(s) {
            Option::None => joined,
            Option::Some(p) => joined + seq!['-'] + p,
        }
    }
}

/// The components written in decimal, joined with '.'.
pub open spec fn spec_join_components(cs: Seq<u32>) -> Seq<char>
    decreases cs.len(),
{
    if cs.len() == 0 {
        Seq::empty()
    } else if cs.len() == 1 {
        spec_u32_chars(cs[0])
    } else {
        spec_join_components(cs.drop_last()) + seq!['.'] + spec_u32_chars(cs.last())
    }
}

/// The decimal digit character for a value below ten.
pub open spec fn spec_digit_char(d: u32) -> char {
    if d == 0 {
        '0'
    } else if d == 1 {
        '1'
    } else if d == 2 {
        '2'
    } else if d == 3 {
        '3'
    } else if d == 4 {
        '4'
    } else if d == 5 {
        '5'
    } else if d == 6 {
        '6'
    } else if d == 7 {
        '7'
    } else if d == 8 {
        '8'
    } else {
        '9'
    }
}

/// The decimal digits of `n`, most significant first.
pub open spec fn spec_u32_chars(n: u32) -> Seq<char>
    decreases n,
{
    if n < 10 {
        seq![spec_digit_char(n as u32)]
    } else {
        spec_u32_chars(n / 10).push(spec_digit_char(n % 10))
    }
}

fn digit_char(d: u32) -> (c: char)
    requires
        d < 10,
    ensures
        c == spec_digit_char(d),
{
    if d == 0 {
        '0'
    } else if d == 1 {
        '1'
    } else if d == 2 {
        '2'
    } else if d == 3 {
        '3'
    } else if d == 4 {
        '4'
    } else if d == 5 {
        '5'
    } else if d == 6 {
        '6'
    } else if d == 7 {
        '7'
    } else if d == 8 {
        '8'
    } else {
        '9'
    }
}

/// Appends the decimal digits of `n`.
fn push_u32_chars(out: &mut Vec<char>, n: u32)
    ensures
        final(out)@ == old(out)@ + spec_u32_chars(n),
    decreases n,
{
    if n < 10 {
        out.push(digit_char(n));
        proof {
            assert(final(out)@ =~= old(out)@ + spec_u32_chars(n));
        }
    } else {
        push_u32_chars(out, n / 10);
        out.push(digit_char(n % 10));
        proof {
            assert(final(out)@ =~= old(out)@ + spec_u32_chars(n));
        }
    }
}

} // verus!
