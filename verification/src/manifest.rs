//! Addon manifest helpers.  The manifest reader itself is an outside
//! collaborator; the library handles the pure pieces: splitting
//! whitespace-separated dependency lists, recognizing manifest content by
//! its required title header, and deriving an addon name from a manifest
//! file path.

use vstd::prelude::*;
use crate::chars::{
    chars_of, contains_chars, contains_seq, find_char_spec, is_space, is_space_char, opt_str_view,
    string_of, subrange_chars, views_of,
};
use crate::paths::{last_component, strip_end_seps};

verus! {

/// The position of the first whitespace character, if any.
pub open spec fn find_space_spec(s: Seq<char>) -> Option<int>
    decreases s.len(),
{
    if s.len() == 0 {
        None
    } else if is_space_char(s[0]) {
        Some(0int)
    } else {
        match find_space_spec(s.drop_first()) {
            None => None,
            Some(i) => Some(i + 1),
        }
    }
}

proof fn lemma_find_space(s: Seq<char>)
    ensures
        match find_space_spec(s) {
            None => forall|j: int| 0 <= j < s.len() ==> !is_space_char(s[j]),
            Some(i) => 0 <= i < s.len() && is_space_char(s[i]) && forall|j: int|
                0 <= j < i ==> !is_space_char(s[j]),
        },
    decreases s.len(),
{
    if s.len() > 0 && !is_space_char(s[0]) {
        lemma_find_space(s.drop_first());
        assert(forall|k: int| 1 <= k < s.len() ==> #[trigger] s[k] == s.drop_first()[k - 1]);
        match find_space_spec(s.drop_first()) {
            None => {
                assert(forall|j: int| 0 <= j < s.len() ==> !is_space_char(s[j]));
            },
            Some(i) => {
                assert(is_space_char(s[i + 1]));
                assert(forall|j: int| 0 <= j < i + 1 ==> !is_space_char(s[j]));
            },
        }
    }
}

/// The maximal whitespace-free runs of the text, in order: what
/// splitting on whitespace yields.
pub open spec fn spec_tokens(s: Seq<char>) -> Seq<Seq<char>>
    decreases s.len(),
    via spec_tokens_decreases
{
    if s.len() == 0 {
        Seq::empty()
    } else if is_space_char(s[0]) {
        spec_tokens(s.drop_first())
    } else {
        match find_space_spec(s) {
            None => seq![s],
            Some(i) => seq![s.subrange(0, i)] + spec_tokens(s.skip(i)),
        }
    }
}

#[via_fn]
proof fn spec_tokens_decreases(s: Seq<char>) {
    lemma_find_space(s);
}

/// Splits a whitespace-separated dependency list into its entries; an
/// absent list yields nothing.
pub fn parse_dependency_list(value: Option<&String>) -> (r: Vec<String>)
    ensures
        views_of(r@) == (match value {
            Some(s) => spec_tokens(s@),
            None => Seq::<Seq<char>>::empty(),
        }),
{
    let mut out: Vec<String> = Vec::new();
    let s = match value {
        Some(s) => s,
        None => {
            proof {
                assert(views_of(out@) =~= Seq::<Seq<char>>::empty());
            }
            return out;
        },
    };
    let v = chars_of(s.as_str());
    let n = v.len();
    let mut i: usize = 0;
    proof {
        assert(v@.skip(0) =~= v@);
        assert(views_of(out@) + spec_tokens(v@) =~= spec_tokens(v@));
    }
    while i < n
        invariant
            n == v@.len(),
            i <= n,
            spec_tokens(v@) == views_of(out@) + spec_tokens(v@.skip(i as int)),
        decreases n - i,
    {
        let ghost pre = out@;
        if is_space(v[i]) {
            proof {
                assert(v@.skip(i as int).drop_first() =~= v@.skip(i + 1));
            }
            i += 1;
        } else {
            let mut j: usize = i;
            while j < n && !is_space(v[j])
                invariant
                    n == v@.len(),
                    i <= j <= n,
                    forall|t: int| i <= t < j ==> !is_space_char(v@[t]),
                decreases n - j,
            {
                j += 1;
            }
            let piece = subrange_chars(&v, i, j);
            out.push(string_of(&piece));
            proof {
                let rest = v@.skip(i as int);
                assert(forall|t: int| 0 <= t < rest.len() ==> #[trigger] rest[t] == v@[i + t]);
                if j < n {
                    lemma_find_space_at(rest, j - i);
                    assert(rest.subrange(0, j - i) =~= piece@);
                    assert(rest.skip(j - i) =~= v@.skip(j as int));
                    assert(views_of(out@) =~= views_of(pre).push(piece@));
                    assert(views_of(pre) + spec_tokens(rest) =~= views_of(out@) + spec_tokens(
                        v@.skip(j as int),
                    ));
                } else {
                    lemma_find_space_none(rest);
                    assert(rest =~= piece@);
                    assert(views_of(out@) =~= views_of(pre).push(piece@));
                    assert(v@.skip(n as int) =~= Seq::<char>::empty());
                    assert(views_of(pre) + spec_tokens(rest) =~= views_of(out@) + spec_tokens(
                        v@.skip(n as int),
                    ));
                }
            }
            i = j;
        }
    }
    proof {
        assert(v@.skip(n as int) =~= Seq::<char>::empty());
        assert(views_of(out@) =~= spec_tokens(v@));
    }
    out
}

proof fn lemma_find_space_at(s: Seq<char>, e: int)
    requires
        0 <= e < s.len(),
        is_space_char(s[e]),
        forall|j: int| 0 <= j < e ==> !is_space_char(s[j]),
    ensures
        find_space_spec(s) == Some(e),
    decreases e,
{
    if e == 0 {
    } else {
        assert(!is_space_char(s[0]));
        lemma_find_space_at(s.drop_first(), e - 1);
        assert(forall|j: int|
            0 <= j < s.drop_first().len() ==> #[trigger] s.drop_first()[j] == s[j + 1]);
    }
}

proof fn lemma_find_space_none(s: Seq<char>)
    requires
        forall|j: int| 0 <= j < s.len() ==> !is_space_char(s[j]),
    ensures
        find_space_spec(s) is None,
    decreases s.len(),
{
    if s.len() > 0 {
        lemma_find_space_none(s.drop_first());
    }
}

/// Whether text is addon manifest content: it carries a title header
/// line.
pub fn is_manifest_content(text: &str) -> (r: bool)
    ensures
        r == contains_seq(text@, "## Title:"@),
{
    let v = chars_of(text);
    let marker = chars_of("## Title:");
    contains_chars(&v, &marker)
}

/// The addon name a manifest path dictates: the file name without its
/// final extension; the whole file name when it has no dot or only a
/// leading one.
pub open spec fn spec_name_from_path(s: Seq<char>) -> Option<Seq<char>> {
    let name = last_component(strip_end_seps(s));
    if name.len() == 0 {
        None
    } else {
        match find_last_dot(name) {
            None => Some(name),
            Some(i) => if i == 0 {
                Some(name)
            } else {
                Some(name.subrange(0, i))
            },
        }
    }
}

/// The position of the last '.', if any.
pub open spec fn find_last_dot(s: Seq<char>) -> Option<int>
    decreases s.len(),
{
    if s.len() == 0 {
        None
    } else if s.last() == '.' {
        Some(s.len() - 1)
    } else {
        find_last_dot(s.drop_last())
    }
}

pub(crate) proof fn lemma_find_last_dot_at(s: Seq<char>, e: int)
    requires
        0 <= e < s.len(),
        s[e] == '.',
        forall|j: int| e < j < s.len() ==> s[j] != '.',
    ensures
        find_last_dot(s) == Some(e),
    decreases s.len(),
{
    if e < s.len() - 1 {
        lemma_find_last_dot_at(s.drop_last(), e);
    }
}

pub(crate) proof fn lemma_find_last_dot_none(s: Seq<char>)
    requires
        forall|j: int| 0 <= j < s.len() ==> s[j] != '.',
    ensures
        find_last_dot(s) is None,
    decreases s.len(),
{
    if s.len() > 0 {
        lemma_find_last_dot_none(s.drop_last());
    }
}

/// Derives the addon name from a manifest file path: the manifest file's
/// own stem names the addon's required folder.
pub fn get_addon_name_from_path(manifest_path: &str) -> (r: Option<String>)
    ensures
        opt_str_view(r) == spec_name_from_path(manifest_path@),
{
    let v = chars_of(manifest_path);
    let stripped = crate::paths::strip_end_seps_chars(&v);
    let name = crate::paths::last_component_chars(&stripped);
    let n = name.len();
    if n == 0 {
        return None;
    }
    let mut i: usize = n;
    while i > 0
        invariant
            name@ == last_component(strip_end_seps(manifest_path@)),
            n == name@.len(),
            n >= 1,
            i <= n,
            forall|j: int| i <= j < n ==> name@[j] != '.',
        decreases i,
    {
        i -= 1;
        if name[i] == '.' {
            proof {
                lemma_find_last_dot_at(name@, i as int);
            }
            if i == 0 {
                return Some(string_of(&name));
            }
            let stem = subrange_chars(&name, 0, i);
            return Some(string_of(&stem));
        }
    }
    proof {
        lemma_find_last_dot_none(name@);
    }
    Some(string_of(&name))
}

} // verus!
