//! Archive extraction planning: path remapping and glob-based exclusion.
//!
//! An archive entry is its decoded path, split into components, plus a
//! directory flag.  Planning strips the conventional top-level wrapper
//! folder, optionally confines entries to a catalog-given subtree, and
//! drops every entry with a component matching an exclude pattern.  The
//! caller performs the byte copying for exactly the planned entries.

use vstd::prelude::*;
use crate::chars::{
    chars_of, contains_chars, contains_seq, ends_with_spec, ends_with_chars, find_char,
    find_char_spec, lemma_chars_cmp_congr, lemma_chars_cmp_flip, lemma_chars_cmp_lt_trans, lower_of,
    lemma_find_char, spec_chars_cmp, str_eq, string_of, subrange_chars, to_lower, views_of,
};
use crate::installer::{has_addon_content, spec_is_manifest_file, FsFile};
use crate::models::InstallInfo;
use core::cmp::Ordering;

verus! {

/// One archive entry: decoded path components and whether it is a
/// directory.
#[derive(Debug, Clone)]
pub struct ArchiveEntry {
    /// Path components, outermost first.
    pub path: Vec<String>,
    /// Whether the entry is a directory rather than a file.
    pub is_dir: bool,
}

/// Whether a name matches one exclude pattern: exact match, the
/// hidden-name pattern ".*" against names starting with '.', or a
/// leading-'*' pattern against names ending in the rest of the pattern.
pub open spec fn spec_glob_match(n: Seq<char>, p: Seq<char>) -> bool {
    ||| n == p
    ||| (p.len() == 2 && p[0] == '.' && p[1] == '*' && n.len() > 0 && n[0] == '.')
    ||| (p.len() >= 2 && p[0] == '*' && ends_with_spec(n, p.subrange(1, p.len() as int)))
}

/// Tests one path component against one exclude pattern.
pub fn matches_glob_pattern(name: &str, pattern: &str) -> (r: bool)
    ensures
        r == spec_glob_match(name@, pattern@),
{
    if str_eq(name, pattern) {
        return true;
    }
    let n = chars_of(name);
    let p = chars_of(pattern);
    if p.len() == 2 && p[0] == '.' && p[1] == '*' && n.len() > 0 && n[0] == '.' {
        return true;
    }
    if p.len() >= 2 && p[0] == '*' {
        let suffix = subrange_chars(&p, 1, p.len());
        if ends_with_chars(&n, &suffix) {
            return true;
        }
    }
    false
}

/// Whether some component of the path matches some exclude pattern.
pub open spec fn spec_excluded(comps: Seq<Seq<char>>, ex: Seq<Seq<char>>) -> bool {
    exists|i: int, j: int|
        0 <= i < comps.len() && 0 <= j < ex.len() && spec_glob_match(
            #[trigger] comps[i],
            #[trigger] ex[j],
        )
}

/// Whether the path should be left out: any component matching any
/// pattern excludes the whole entry.
pub fn should_exclude(comps: &Vec<String>, excludes: &Vec<String>) -> (r: bool)
    ensures
        r == spec_excluded(views_of(comps@), views_of(excludes@)),
{
    proof {
        assert(forall|i: int| 0 <= i < comps@.len() ==> #[trigger] views_of(comps@)[i]
            == comps@[i]@);
        assert(forall|j: int| 0 <= j < excludes@.len() ==> #[trigger] views_of(excludes@)[j]
            == excludes@[j]@);
    }
    let mut i: usize = 0;
    while i < comps.len()
        invariant
            i <= comps@.len(),
            forall|a: int, b: int|
                0 <= a < i && 0 <= b < excludes@.len() ==> !spec_glob_match(
                    #[trigger] views_of(comps@)[a],
                    #[trigger] views_of(excludes@)[b],
                ),
        decreases comps@.len() - i,
    {
        let mut j: usize = 0;
        while j < excludes.len()
            invariant
                i < comps@.len(),
                j <= excludes@.len(),
                forall|b: int|
                    0 <= b < j ==> !spec_glob_match(
                        views_of(comps@)[i as int],
                        #[trigger] views_of(excludes@)[b],
                    ),
            decreases excludes@.len() - j,
        {
            proof {
                assert(views_of(comps@)[i as int] == comps@[i as int]@);
                assert(views_of(excludes@)[j as int] == excludes@[j as int]@);
            }
            if matches_glob_pattern(comps[i].as_str(), excludes[j].as_str()) {
                return true;
            }
            j += 1;
        }
        i += 1;
    }
    false
}

/// A path split at '/' into components.
pub open spec fn spec_split_slash(s: Seq<char>) -> Seq<Seq<char>>
    decreases s.len(),
    via spec_split_slash_decreases
{
    match find_char_spec(s, '/') {
        None => seq![s],
        Some(i) => seq![s.subrange(0, i)] + spec_split_slash(s.subrange(i + 1, s.len() as int)),
    }
}

#[via_fn]
proof fn spec_split_slash_decreases(s: Seq<char>) {
    lemma_find_char(s, '/');
}

/// Splits a subtree path on '/'.
fn split_slash(s: &str) -> (r: Vec<String>)
    ensures
        views_of(r@) == spec_split_slash(s@),
{
    let mut out: Vec<String> = Vec::new();
    let mut rest: Vec<char> = chars_of(s);
    proof {
        assert(views_of(out@) + spec_split_slash(rest@) =~= spec_split_slash(s@));
    }
    loop
        invariant_except_break
            spec_split_slash(s@) == views_of(out@) + spec_split_slash(rest@),
        ensures
            views_of(out@) == spec_split_slash(s@),
        decreases rest@.len(),
    {
        proof {
            lemma_find_char(rest@, '/');
        }
        let ghost pre = out@;
        let rlen = rest.len();
        match find_char(&rest, '/') {
            Some(i) => {
                let piece = subrange_chars(&rest, 0, i);
                out.push(string_of(&piece));
                let next = subrange_chars(&rest, i + 1, rlen);
                proof {
                    assert(views_of(out@) =~= views_of(pre).push(piece@));
                    assert(views_of(pre) + spec_split_slash(rest@) =~= views_of(out@)
                        + spec_split_slash(next@));
                }
                rest = next;
            },
            None => {
                out.push(string_of(&rest));
                proof {
                    assert(views_of(out@) =~= views_of(pre).push(rest@));
                    assert(views_of(pre) + spec_split_slash(rest@) =~= views_of(out@));
                }
                break ;
            },
        }
    }
    out
}

/// Whether a decoded path component cannot be safely confined under a
/// target directory: empty components and parent-directory references
/// are rejected.
pub open spec fn unsafe_component(c: Seq<char>) -> bool {
    c.len() == 0 || c == ".."@
}

/// Whether any component of the decoded path is unsafe.
pub open spec fn has_unsafe_component(comps: Seq<Seq<char>>) -> bool {
    exists|i: int| 0 <= i < comps.len() && unsafe_component(#[trigger] comps[i])
}

/// Whether every component of the entry's decoded path is safe to place
/// under the target directory.
fn path_is_confined(path: &Vec<String>) -> (r: bool)
    ensures
        r == !has_unsafe_component(views_of(path@)),
{
    proof {
        assert(forall|i: int| 0 <= i < path@.len() ==> #[trigger] views_of(path@)[i]
            == path@[i]@);
    }
    let mut i: usize = 0;
    while i < path.len()
        invariant
            i <= path@.len(),
            forall|j: int| 0 <= j < i ==> !unsafe_component(#[trigger] views_of(path@)[j]),
        decreases path@.len() - i,
    {
        proof {
            assert(views_of(path@)[i as int] == path@[i as int]@);
        }
        if path[i].as_str().is_empty() || str_eq(path[i].as_str(), "..") {
            proof {
                reveal_strlit("..");
            }
            return false;
        }
        proof {
            reveal_strlit("..");
        }
        i += 1;
    }
    true
}

/// Where one entry goes: the components under the wrapper folder,
/// confined to the given subtree; nothing for entries outside it, for
/// bare wrapper entries, and for root markers.
pub open spec fn spec_remap(comps: Seq<Seq<char>>, prefix: Seq<Seq<char>>) -> Option<
    Seq<Seq<char>>,
> {
    if comps.len() < 2 {
        None
    } else {
        let inner = comps.skip(1);
        if prefix.len() == 0 {
            Some(inner)
        } else if inner.len() >= prefix.len() && inner.subrange(0, prefix.len() as int)
            == prefix {
            Some(inner.skip(prefix.len() as int))
        } else {
            None
        }
    }
}

/// Whether planning writes the entry, and as what path: safely
/// confinable, remapped, nonempty, and not excluded.
pub open spec fn spec_planned(
    e: ArchiveEntry,
    prefix: Seq<Seq<char>>,
    ex: Seq<Seq<char>>,
) -> Option<(Seq<Seq<char>>, bool)> {
    if has_unsafe_component(views_of(e.path@)) {
        None
    } else {
        spec_planned_safe(e, prefix, ex)
    }
}

/// The plan for an entry whose path is already known safe.
pub open spec fn spec_planned_safe(
    e: ArchiveEntry,
    prefix: Seq<Seq<char>>,
    ex: Seq<Seq<char>>,
) -> Option<(Seq<Seq<char>>, bool)> {
    match spec_remap(views_of(e.path@), prefix) {
        None => None,
        Some(adj) => if adj.len() == 0 {
            None
        } else if spec_excluded(adj, ex) {
            None
        } else {
            Some((adj, e.is_dir))
        },
    }
}

/// The plan for a whole entry list, in order.
pub open spec fn spec_plan(
    entries: Seq<ArchiveEntry>,
    prefix: Seq<Seq<char>>,
    ex: Seq<Seq<char>>,
) -> Seq<(Seq<Seq<char>>, bool)>
    decreases entries.len(),
{
    if entries.len() == 0 {
        Seq::empty()
    } else {
        spec_plan(entries.drop_last(), prefix, ex) + (match spec_planned(
            entries.last(),
            prefix,
            ex,
        ) {
            None => Seq::empty(),
            Some(p) => seq![p],
        })
    }
}

/// The view of a planned entry list.
pub open spec fn plan_views(v: Seq<ArchiveEntry>) -> Seq<(Seq<Seq<char>>, bool)> {
    v.map_values(|e: ArchiveEntry| (views_of(e.path@), e.is_dir))
}

/// Plans extraction with catalog install options: strips the wrapper
/// folder, confines entries to `extract_path` when one is given, and
/// drops entries matching an exclude pattern.  Every entry whose
/// remapped path has a `.psd`-style suffix pattern or hidden-name
/// pattern among the excludes is omitted; all other entries keep their
/// relative structure after root-stripping.  Entry paths are untrusted:
/// an entry with an empty or parent-directory component anywhere in its
/// decoded path is skipped, so every planned path stays confined under
/// the target directory.
pub fn extract_archive_with_options(
    entries: &Vec<ArchiveEntry>,
    install_info: Option<&InstallInfo>,
) -> (r: Vec<ArchiveEntry>)
    ensures
        ({
            let prefix = match install_info {
                Some(info) => match info.extract_path {
                    Some(p) => spec_split_slash(p@),
                    None => Seq::empty(),
                },
                None => Seq::empty(),
            };
            let ex = match install_info {
                Some(info) => views_of(info.excludes@),
                None => Seq::empty(),
            };
            plan_views(r@) == spec_plan(entries@, prefix, ex)
        }),
        forall|k: int|
            0 <= k < r@.len() ==> !has_unsafe_component(views_of((#[trigger] r@[k]).path@)),
{
    let empty_excludes: Vec<String> = Vec::new();
    let excludes: &Vec<String> = match install_info {
        Some(info) => &info.excludes,
        None => &empty_excludes,
    };
    let prefix: Vec<String> = match install_info {
        Some(info) => match &info.extract_path {
            Some(p) => split_slash(p.as_str()),
            None => Vec::new(),
        },
        None => Vec::new(),
    };
    let ghost prefix_v = views_of(prefix@);
    let ghost ex_v = views_of(excludes@);
    proof {
        assert(views_of(Seq::<String>::empty()) =~= Seq::<Seq<char>>::empty());
    }
    let mut out: Vec<ArchiveEntry> = Vec::new();
    let mut i: usize = 0;
    proof {
        assert(entries@.take(0) =~= Seq::<ArchiveEntry>::empty());
        assert(plan_views(out@) =~= spec_plan(entries@.take(0), prefix_v, ex_v));
    }
    while i < entries.len()
        invariant
            i <= entries@.len(),
            prefix_v == views_of(prefix@),
            ex_v == views_of(excludes@),
            plan_views(out@) == spec_plan(entries@.take(i as int), prefix_v, ex_v),
            forall|k: int|
                0 <= k < out@.len() ==> !has_unsafe_component(
                    views_of((#[trigger] out@[k]).path@),
                ),
        decreases entries@.len() - i,
    {
        proof {
            assert(entries@.take(i + 1).drop_last() =~= entries@.take(i as int));
            assert(entries@.take(i + 1).last() == entries@[i as int]);
        }
        let e = &entries[i];
        let ghost out0 = out@;
        if path_is_confined(&e.path) && e.path.len() >= 2 {
            let mut adjusted: Vec<String> = Vec::new();
            let mut k: usize = 1;
            while k < e.path.len()
                invariant
                    1 <= k <= e.path@.len(),
                    adjusted@.len() == k - 1,
                    forall|t: int| 0 <= t < k - 1 ==> #[trigger] adjusted@[t] == e.path@[t + 1],
                decreases e.path@.len() - k,
            {
                adjusted.push(e.path[k].clone());
                k += 1;
            }
            proof {
                assert(views_of(adjusted@) =~= views_of(e.path@).skip(1));
            }
            let keep: Option<Vec<String>> = if prefix.len() == 0 {
                Some(adjusted)
            } else if adjusted.len() >= prefix.len() {
                let mut same = true;
                let mut t: usize = 0;
                while t < prefix.len()
                    invariant
                        t <= prefix@.len(),
                        prefix@.len() <= adjusted@.len(),
                        same || t == prefix@.len(),
                        same == (forall|a: int|
                            0 <= a < t ==> #[trigger] adjusted@[a]@ == prefix@[a]@),
                    decreases prefix@.len() - t,
                {
                    if !str_eq(adjusted[t].as_str(), prefix[t].as_str()) {
                        proof {
                            assert(adjusted@[t as int]@ != prefix@[t as int]@);
                        }
                        same = false;
                        t = prefix.len();
                    } else {
                        proof {
                            assert(forall|a: int|
                                0 <= a < t + 1 ==> #[trigger] adjusted@[a]@ == prefix@[a]@);
                        }
                        t += 1;
                    }
                }
                if same {
                    proof {
                        assert(views_of(adjusted@).subrange(0, prefix_v.len() as int)
                            =~= prefix_v);
                    }
                    let stripped = subvec_strings(&adjusted, prefix.len());
                    Some(stripped)
                } else {
                    proof {
                        let a = choose|a: int|
                            0 <= a < prefix@.len() && adjusted@[a]@ != prefix@[a]@;
                        assert(views_of(adjusted@).subrange(0, prefix_v.len() as int)[a]
                            != prefix_v[a]);
                        assert(views_of(adjusted@).subrange(0, prefix_v.len() as int)
                            != prefix_v);
                    }
                    None
                }
            } else {
                None
            };
            match keep {
                Some(adj) => {
                    if adj.len() > 0 && !should_exclude(&adj, excludes) {
                        proof {
                            assert(!has_unsafe_component(views_of(adj@))) by {
                                if has_unsafe_component(views_of(adj@)) {
                                    let u = choose|u: int|
                                        0 <= u < views_of(adj@).len() && unsafe_component(
                                            #[trigger] views_of(adj@)[u],
                                        );
                                    assert(unsafe_component(views_of(e.path@)[
                                        views_of(e.path@).len() - views_of(adj@).len() + u
                                    ]));
                                }
                            }
                        }
                        out.push(ArchiveEntry { path: adj, is_dir: e.is_dir });
                        proof {
                            assert(plan_views(out@) =~= plan_views(out0).push(
                                (views_of(out@.last().path@), out@.last().is_dir),
                            ));
                        }
                    }
                },
                None => {},
            }
        }
        proof {
            assert(plan_views(out@) =~= spec_plan(entries@.take(i + 1), prefix_v, ex_v));
        }
        i += 1;
    }
    proof {
        assert(entries@.take(entries@.len() as int) =~= entries@);
    }
    out
}

/// The components of `v` from position `from` on.
fn subvec_strings(v: &Vec<String>, from: usize) -> (r: Vec<String>)
    requires
        from <= v@.len(),
    ensures
        views_of(r@) == views_of(v@).skip(from as int),
{
    let mut r: Vec<String> = Vec::new();
    let mut i: usize = from;
    while i < v.len()
        invariant
            from <= i <= v@.len(),
            r@.len() == i - from,
            forall|t: int| 0 <= t < i - from ==> #[trigger] r@[t]@ == v@[t + from]@,
        decreases v@.len() - i,
    {
        r.push(v[i].clone());
        i += 1;
    }
    proof {
        assert(views_of(r@) =~= views_of(v@).skip(from as int));
    }
    r
}

/// Plans extraction with no install options: the wrapper folder is
/// stripped and nothing is excluded.
pub fn extract_archive(entries: &Vec<ArchiveEntry>) -> (r: Vec<ArchiveEntry>)
    ensures
        plan_views(r@) == spec_plan(entries@, Seq::empty(), Seq::empty()),
{
    extract_archive_with_options(entries, None)
}

/// One directory of an extraction tree: its path relative to the
/// extraction root (empty for the root itself, at most two components
/// deep for the search) and the files it directly holds.
#[derive(Debug, Clone)]
pub struct DirView {
    /// Path components relative to the extraction root.
    pub path: Vec<String>,
    /// The files directly inside the directory.
    pub files: Vec<FsFile>,
}

/// Whether a directory name signals an example or test fixture that
/// addon-root discovery must skip.
pub open spec fn example_like(name: Seq<char>) -> bool {
    ||| (name.len() > 0 && name[0] == '_')
    ||| contains_seq(lower_of(name), "example"@)
    ||| contains_seq(lower_of(name), "_test"@)
}

/// Whether a directory name signals an example or test fixture.
pub fn is_example_dir(name: &str) -> (r: bool)
    ensures
        r == example_like(name@),
{
    let nc = chars_of(name);
    if nc.len() > 0 && nc[0] == '_' {
        return true;
    }
    let lowered = to_lower(name);
    let lc = chars_of(lowered.as_str());
    let ex = chars_of("example");
    let ts = chars_of("_test");
    contains_chars(&lc, &ex) || contains_chars(&lc, &ts)
}

/// Whether a directory can be the addon root: at most two levels below
/// the extraction root, no example-like component on its path, and a
/// manifest directly inside it.
pub open spec fn addon_root_candidate(d: DirView) -> bool {
    &&& d.path@.len() <= 2
    &&& forall|i: int| 0 <= i < d.path@.len() ==> !example_like((#[trigger] d.path@[i])@)
    &&& exists|i: int| 0 <= i < d.files@.len() && spec_is_manifest_file(#[trigger] d.files@[i])
}

fn is_root_candidate(d: &DirView) -> (r: bool)
    ensures
        r == addon_root_candidate(*d),
{
    if d.path.len() > 2 {
        return false;
    }
    let mut i: usize = 0;
    while i < d.path.len()
        invariant
            i <= d.path@.len(),
            forall|j: int| 0 <= j < i ==> !example_like((#[trigger] d.path@[j])@),
        decreases d.path@.len() - i,
    {
        if is_example_dir(d.path[i].as_str()) {
            return false;
        }
        i += 1;
    }
    has_addon_content(&d.files)
}

/// The search order of addon-root discovery: shallower directories
/// first, lexicographic by path within a depth.
pub open spec fn paths_le(a: Seq<Seq<char>>, b: Seq<Seq<char>>) -> bool
    decreases a.len() + b.len(),
{
    if a.len() == 0 {
        true
    } else if b.len() == 0 {
        false
    } else {
        match spec_chars_cmp(a[0], b[0]) {
            Ordering::Less => true,
            Ordering::Greater => false,
            Ordering::Equal => paths_le(a.drop_first(), b.drop_first()),
        }
    }
}

/// Whether `a` comes no later than `b` in the search order.
pub open spec fn dir_le(a: DirView, b: DirView) -> bool {
    ||| a.path@.len() < b.path@.len()
    ||| (a.path@.len() == b.path@.len() && paths_le(views_of(a.path@), views_of(b.path@)))
}

proof fn lemma_paths_le_total(a: Seq<Seq<char>>, b: Seq<Seq<char>>)
    ensures
        paths_le(a, b) || paths_le(b, a),
    decreases a.len() + b.len(),
{
    if a.len() > 0 && b.len() > 0 {
        lemma_chars_cmp_flip(a[0], b[0]);
        if spec_chars_cmp(a[0], b[0]) == Ordering::Equal {
            lemma_paths_le_total(a.drop_first(), b.drop_first());
        }
    }
}

proof fn lemma_paths_le_trans(a: Seq<Seq<char>>, b: Seq<Seq<char>>, c: Seq<Seq<char>>)
    requires
        paths_le(a, b),
        paths_le(b, c),
    ensures
        paths_le(a, c),
    decreases a.len() + b.len() + c.len(),
{
    if a.len() > 0 && b.len() > 0 && c.len() > 0 {
        match spec_chars_cmp(a[0], b[0]) {
            Ordering::Less => {
                match spec_chars_cmp(b[0], c[0]) {
                    Ordering::Less => {
                        lemma_chars_cmp_lt_trans(a[0], b[0], c[0]);
                    },
                    Ordering::Equal => {
                        lemma_chars_cmp_congr(b[0], c[0], a[0]);
                    },
                    Ordering::Greater => {},
                }
            },
            Ordering::Equal => {
                lemma_chars_cmp_congr(a[0], b[0], c[0]);
                match spec_chars_cmp(b[0], c[0]) {
                    Ordering::Equal => {
                        lemma_paths_le_trans(a.drop_first(), b.drop_first(), c.drop_first());
                    },
                    _ => {},
                }
            },
            Ordering::Greater => {},
        }
    }
}

proof fn lemma_dir_le_total(a: DirView, b: DirView)
    ensures
        dir_le(a, b) || dir_le(b, a),
{
    if a.path@.len() == b.path@.len() {
        lemma_paths_le_total(views_of(a.path@), views_of(b.path@));
    }
}

proof fn lemma_dir_le_trans(a: DirView, b: DirView, c: DirView)
    requires
        dir_le(a, b),
        dir_le(b, c),
    ensures
        dir_le(a, c),
{
    if a.path@.len() == b.path@.len() && b.path@.len() == c.path@.len() {
        lemma_paths_le_trans(views_of(a.path@), views_of(b.path@), views_of(c.path@));
    }
}

/// Whether `a`'s path comes no later than `b`'s in the search order.
fn dir_le_exec(a: &DirView, b: &DirView) -> (r: bool)
    ensures
        r == dir_le(*a, *b),
{
    let na = a.path.len();
    let nb = b.path.len();
    if na < nb {
        return true;
    }
    if na > nb {
        return false;
    }
    let ghost va = views_of(a.path@);
    let ghost vb = views_of(b.path@);
    let mut i: usize = 0;
    proof {
        assert(va.skip(0) =~= va);
        assert(vb.skip(0) =~= vb);
    }
    while i < na
        invariant
            na == a.path@.len(),
            na == b.path@.len(),
            i <= na,
            va == views_of(a.path@),
            vb == views_of(b.path@),
            paths_le(va, vb) == paths_le(va.skip(i as int), vb.skip(i as int)),
        decreases na - i,
    {
        proof {
            assert(va.skip(i as int)[0] == a.path@[i as int]@);
            assert(vb.skip(i as int)[0] == b.path@[i as int]@);
        }
        match crate::chars::str_cmp(a.path[i].as_str(), b.path[i].as_str()) {
            Ordering::Less => {
                return true;
            },
            Ordering::Greater => {
                return false;
            },
            Ordering::Equal => {
                proof {
                    assert(va.skip(i as int).drop_first() =~= va.skip(i + 1));
                    assert(vb.skip(i as int).drop_first() =~= vb.skip(i + 1));
                }
            },
        }
        i += 1;
    }
    proof {
        assert(va.skip(na as int) =~= Seq::<Seq<char>>::empty());
    }
    true
}

/// Finds the addon root among the directories of an extraction: the
/// earliest directory, shallowest first and lexicographic by path within
/// a depth, that holds a manifest and has no example-like name on its
/// path.  Nothing is returned exactly when no directory qualifies.
pub fn find_addon_root(dirs: &Vec<DirView>) -> (r: Option<usize>)
    ensures
        match r {
            Some(i) => i < dirs@.len() && addon_root_candidate(dirs@[i as int]) && forall|j: int|
                0 <= j < dirs@.len() && addon_root_candidate(#[trigger] dirs@[j]) ==> dir_le(
                    dirs@[i as int],
                    dirs@[j],
                ),
            None => forall|j: int| 0 <= j < dirs@.len() ==> !addon_root_candidate(
                #[trigger] dirs@[j],
            ),
        },
{
    let mut best: Option<usize> = None;
    let mut j: usize = 0;
    while j < dirs.len()
        invariant
            j <= dirs@.len(),
            match best {
                Some(b) => b < j && addon_root_candidate(dirs@[b as int]) && forall|t: int|
                    0 <= t < j && addon_root_candidate(#[trigger] dirs@[t]) ==> dir_le(
                        dirs@[b as int],
                        dirs@[t],
                    ),
                None => forall|t: int| 0 <= t < j ==> !addon_root_candidate(#[trigger] dirs@[t]),
            },
        decreases dirs@.len() - j,
    {
        if is_root_candidate(&dirs[j]) {
            match best {
                Option::None => {
                    proof {
                        lemma_dir_le_total(dirs@[j as int], dirs@[j as int]);
                    }
                    best = Some(j);
                },
                Option::Some(b) => {
                    if !dir_le_exec(&dirs[b], &dirs[j]) {
                        proof {
                            lemma_dir_le_total(dirs@[b as int], dirs@[j as int]);
                            assert(dir_le(dirs@[j as int], dirs@[b as int]));
                            assert forall|t: int|
                                0 <= t < j + 1 && addon_root_candidate(
                                    #[trigger] dirs@[t],
                                ) implies dir_le(dirs@[j as int], dirs@[t]) by {
                                if t < j {
                                    lemma_dir_le_trans(
                                        dirs@[j as int],
                                        dirs@[b as int],
                                        dirs@[t],
                                    );
                                } else {
                                    lemma_dir_le_total(dirs@[j as int], dirs@[j as int]);
                                }
                            }
                        }
                        best = Some(j);
                    }
                },
            }
        }
        j += 1;
    }
    best
}

} // verus!
