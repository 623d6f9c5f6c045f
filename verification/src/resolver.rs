//! Dependency resolution: walking the catalog graph from a root addon,
//! with an externally supplied set of already-installed addons, to
//! produce an install plan.
//!
//! The walk carries an explicit worklist of (slug, depth) pairs and an
//! owned visited list for cycle protection; the result orders installable
//! dependencies deepest first, the required install order.

use vstd::prelude::*;
use crate::chars::{
    find_char, find_char_spec, lemma_find_char, lower_of, opt_str_view, starts_with_spec,
    str_eq, str_starts_with, string_of, subrange_chars, to_lower, vec_contains_str, views_of,
    chars_of,
};
use crate::models::{AddonIndex, IndexAddon, InstallInfo, InstalledAddon};
use crate::paths::{manifest_parent_folder, parent_folder_spec};

verus! {

/// A resolved dependency, ready for installation.
#[derive(Debug, Clone)]
pub struct ResolvedDependency {
    /// The addon slug.
    pub slug: String,
    /// Display name.
    pub name: String,
    /// Version to install.
    pub version: String,
    /// Download URL.
    pub download_url: String,
    /// Installation info from the catalog.
    pub install_info: InstallInfo,
    /// Distance from the resolution root; 0 for a direct dependency.
    pub depth: usize,
}

/// The outcome of dependency resolution: three disjoint lists.
#[derive(Debug, Clone)]
pub struct DependencyResult {
    /// Dependencies installable from the catalog, deepest first.
    pub resolved: Vec<ResolvedDependency>,
    /// Dependencies already present, by the slug that named them.
    pub already_installed: Vec<String>,
    /// Dependencies absent from the catalog or lacking a usable URL.
    pub unresolved: Vec<String>,
}

impl DependencyResult {
    /// Whether anything remains to install.
    pub fn has_dependencies(&self) -> (r: bool)
        ensures
            r == (self.resolved@.len() > 0),
    {
        self.resolved.len() > 0
    }

    /// Whether any dependency could not be resolved.
    pub fn has_unresolved(&self) -> (r: bool)
        ensures
            r == (self.unresolved@.len() > 0),
    {
        self.unresolved.len() > 0
    }
}

/// The slug up to its first '-': the base used for fuzzy matching of
/// version-suffixed names.
pub open spec fn base_of(s: Seq<char>) -> Seq<char> {
    match find_char_spec(s, '-') {
        None => s,
        Some(i) => s.subrange(0, i),
    }
}

/// The base of the given string's characters.
fn base_string(s: &str) -> (r: String)
    ensures
        r@ == base_of(s@),
{
    let v = chars_of(s);
    proof {
        lemma_find_char(v@, '-');
    }
    match find_char(&v, '-') {
        None => string_of(&v),
        Some(i) => {
            let b = subrange_chars(&v, 0, i);
            string_of(&b)
        },
    }
}

/// Whether a lowered slug counts as installed against lowered installed
/// slugs and folder names: exact membership either way, or base-prefix
/// containment in either direction.
pub open spec fn spec_installed_views(
    dl: Seq<char>,
    slugs: Seq<Seq<char>>,
    folders: Seq<Seq<char>>,
) -> bool {
    let sl = lower_of(dl);
    let base = base_of(sl);
    ||| slugs.contains(sl)
    ||| folders.contains(sl)
    ||| exists|i: int|
        0 <= i < slugs.len() && (starts_with_spec(slugs[i], base) || starts_with_spec(
            base,
            slugs[i],
        ))
    ||| exists|i: int|
        0 <= i < folders.len() && (starts_with_spec(folders[i], base) || starts_with_spec(
            base,
            folders[i],
        ))
}

/// The lowered name of the folder holding an installed addon's manifest.
pub open spec fn spec_folder_lower(a: InstalledAddon) -> Option<Seq<char>> {
    match parent_folder_spec(a.manifest_path@) {
        None => None,
        Some(p) => Some(lower_of(p)),
    }
}

/// Whether a dependency slug (lowered once already) counts as installed
/// against the installed records: by slug, by folder name, or by
/// base-prefix containment either way.
pub open spec fn spec_installed_lowered(dl: Seq<char>, installed: Seq<InstalledAddon>) -> bool {
    let sl = lower_of(dl);
    let base = base_of(sl);
    ||| exists|i: int| 0 <= i < installed.len() && lower_of(installed[i].slug@) == sl
    ||| exists|i: int| 0 <= i < installed.len() && spec_folder_lower(installed[i]) == Some(sl)
    ||| exists|i: int|
        0 <= i < installed.len() && (starts_with_spec(lower_of(installed[i].slug@), base)
            || starts_with_spec(base, lower_of(installed[i].slug@)))
    ||| exists|i: int|
        0 <= i < installed.len() && (match #[trigger] spec_folder_lower(installed[i]) {
            Some(f) => starts_with_spec(f, base) || starts_with_spec(base, f),
            None => false,
        })
}

/// Whether a dependency slug, as written, counts as installed.
pub open spec fn spec_dep_installed(d: Seq<char>, installed: Seq<InstalledAddon>) -> bool {
    spec_installed_lowered(lower_of(d), installed)
}

/// Whether any string of `v` and `base` stand in a prefix relation, in
/// either direction.
fn any_prefix_match(v: &Vec<String>, base: &str) -> (r: bool)
    ensures
        r == (exists|i: int|
            0 <= i < views_of(v@).len() && (starts_with_spec(#[trigger] views_of(v@)[i], base@)
                || starts_with_spec(base@, views_of(v@)[i]))),
{
    let mut i: usize = 0;
    while i < v.len()
        invariant
            i <= v@.len(),
            forall|j: int|
                0 <= j < i ==> !(starts_with_spec(#[trigger] views_of(v@)[j], base@)
                    || starts_with_spec(base@, views_of(v@)[j])),
        decreases v@.len() - i,
    {
        proof {
            assert(views_of(v@)[i as int] == v@[i as int]@);
        }
        if str_starts_with(v[i].as_str(), base) || str_starts_with(base, v[i].as_str()) {
            return true;
        }
        i += 1;
    }
    false
}

/// Whether some string of `v` has exactly the characters of `x`.
fn views_contain(v: &Vec<String>, x: &str) -> (r: bool)
    ensures
        r == views_of(v@).contains(x@),
{
    let r = vec_contains_str(v, x);
    proof {
        assert(forall|i: int| 0 <= i < v@.len() ==> #[trigger] views_of(v@)[i] == v@[i]@);
        if r {
            let i = choose|i: int| 0 <= i < v@.len() && v@[i]@ == x@;
            assert(views_of(v@)[i] == x@);
        } else {
            if views_of(v@).contains(x@) {
                let k = choose|k: int|
                    0 <= k < views_of(v@).len() && views_of(v@)[k] == x@;
                assert(v@[k]@ == x@);
                assert(false);
            }
        }
    }
    r
}

/// Checks a lowered slug against the prepared lowered slug and folder
/// lists.
fn is_installed(slug_lower: &str, slugs: &Vec<String>, folders: &Vec<String>) -> (r: bool)
    ensures
        r == spec_installed_views(slug_lower@, views_of(slugs@), views_of(folders@)),
{
    let sl = to_lower(slug_lower);
    let in_slugs = views_contain(slugs, sl.as_str());
    let in_folders = views_contain(folders, sl.as_str());
    let base = base_string(sl.as_str());
    let slug_prefix = any_prefix_match(slugs, base.as_str());
    let folder_prefix = any_prefix_match(folders, base.as_str());
    in_slugs || in_folders || slug_prefix || folder_prefix
}

/// Whether `i` is the first catalog position whose slug equals `s`
/// exactly.
pub open spec fn is_first_exact(addons: Seq<IndexAddon>, s: Seq<char>, i: int) -> bool {
    &&& 0 <= i < addons.len()
    &&& addons[i].slug@ == s
    &&& forall|j: int| 0 <= j < i ==> addons[j].slug@ != s
}

/// The first catalog position whose slug equals `s` exactly.
pub open spec fn spec_find_exact(addons: Seq<IndexAddon>, s: Seq<char>) -> Option<int> {
    if exists|i: int| is_first_exact(addons, s, i) {
        Some(choose|i: int| is_first_exact(addons, s, i))
    } else {
        None
    }
}

/// Whether `i` is the first catalog position whose lowered slug equals
/// the lowered slug `sl`.
pub open spec fn is_first_ci(addons: Seq<IndexAddon>, sl: Seq<char>, i: int) -> bool {
    &&& 0 <= i < addons.len()
    &&& lower_of(addons[i].slug@) == sl
    &&& forall|j: int| 0 <= j < i ==> lower_of(addons[j].slug@) != sl
}

/// The first catalog position matching case-insensitively.
pub open spec fn spec_find_ci(addons: Seq<IndexAddon>, sl: Seq<char>) -> Option<int> {
    if exists|i: int| is_first_ci(addons, sl, i) {
        Some(choose|i: int| is_first_ci(addons, sl, i))
    } else {
        None
    }
}

/// Whether `i` is the first catalog position whose lowered slug has base
/// `b`.
pub open spec fn is_first_base(addons: Seq<IndexAddon>, b: Seq<char>, i: int) -> bool {
    &&& 0 <= i < addons.len()
    &&& base_of(lower_of(addons[i].slug@)) == b
    &&& forall|j: int| 0 <= j < i ==> base_of(lower_of(addons[j].slug@)) != b
}

/// The first catalog position matching by version-suffix-stripped base.
pub open spec fn spec_find_base(addons: Seq<IndexAddon>, b: Seq<char>) -> Option<int> {
    if exists|i: int| is_first_base(addons, b, i) {
        Some(choose|i: int| is_first_base(addons, b, i))
    } else {
        None
    }
}

/// The catalog position a dependency slug finds: exact match first, then
/// case-insensitive, then by version-suffix-stripped base.
pub open spec fn spec_find_in_index(addons: Seq<IndexAddon>, d: Seq<char>) -> Option<int> {
    match spec_find_exact(addons, d) {
        Some(i) => Some(i),
        None => match spec_find_ci(addons, lower_of(d)) {
            Some(i) => Some(i),
            None => spec_find_base(addons, base_of(lower_of(d))),
        },
    }
}

/// Finds the first catalog position whose slug matches exactly.
fn find_exact_idx(addons: &Vec<IndexAddon>, slug: &str) -> (r: Option<usize>)
    ensures
        match r {
            None => spec_find_exact(addons@, slug@) is None,
            Some(i) => spec_find_exact(addons@, slug@) == Some(i as int) && i < addons@.len(),
        },
{
    let mut i: usize = 0;
    while i < addons.len()
        invariant
            i <= addons@.len(),
            forall|j: int| 0 <= j < i ==> addons@[j].slug@ != slug@,
        decreases addons@.len() - i,
    {
        if str_eq(addons[i].slug.as_str(), slug) {
            proof {
                assert(is_first_exact(addons@, slug@, i as int));
                let w = choose|k: int| is_first_exact(addons@, slug@, k);
                if w < i {
                    assert(addons@[w].slug@ == slug@);
                    assert(false);
                }
                if w > i {
                    assert(addons@[i as int].slug@ != slug@);
                    assert(false);
                }
            }
            return Some(i);
        }
        i += 1;
    }
    proof {
        if exists|k: int| is_first_exact(addons@, slug@, k) {
            let w = choose|k: int| is_first_exact(addons@, slug@, k);
            assert(addons@[w].slug@ == slug@);
            assert(false);
        }
    }
    None
}

/// Finds a dependency slug in the catalog: exact, then case-insensitive,
/// then by base.
fn find_in_index(slug: &str, addons: &Vec<IndexAddon>) -> (r: Option<usize>)
    ensures
        match r {
            None => spec_find_in_index(addons@, slug@) is None,
            Some(i) => spec_find_in_index(addons@, slug@) == Some(i as int) && i < addons@.len(),
        },
{
    match find_exact_idx(addons, slug) {
        Some(i) => {
            return Some(i);
        },
        None => {},
    }
    let slug_lower = to_lower(slug);
    let mut i: usize = 0;
    while i < addons.len()
        invariant
            slug_lower@ == lower_of(slug@),
            i <= addons@.len(),
            spec_find_exact(addons@, slug@) is None,
            forall|j: int| 0 <= j < i ==> lower_of(addons@[j].slug@) != slug_lower@,
        decreases addons@.len() - i,
    {
        let key_lower = to_lower(addons[i].slug.as_str());
        if str_eq(key_lower.as_str(), slug_lower.as_str()) {
            proof {
                assert(is_first_ci(addons@, slug_lower@, i as int));
                let w = choose|k: int| is_first_ci(addons@, slug_lower@, k);
                if w < i {
                    assert(lower_of(addons@[w].slug@) == slug_lower@);
                    assert(false);
                }
                if w > i {
                    assert(lower_of(addons@[i as int].slug@) != slug_lower@);
                    assert(false);
                }
            }
            return Some(i);
        }
        i += 1;
    }
    proof {
        if exists|k: int| is_first_ci(addons@, lower_of(slug@), k) {
            let w = choose|k: int| is_first_ci(addons@, lower_of(slug@), k);
            assert(lower_of(addons@[w].slug@) == lower_of(slug@));
            assert(false);
        }
    }
    let base = base_string(slug_lower.as_str());
    let mut i: usize = 0;
    while i < addons.len()
        invariant
            slug_lower@ == lower_of(slug@),
            base@ == base_of(lower_of(slug@)),
            i <= addons@.len(),
            spec_find_exact(addons@, slug@) is None,
            spec_find_ci(addons@, lower_of(slug@)) is None,
            forall|j: int| 0 <= j < i ==> base_of(lower_of(addons@[j].slug@)) != base@,
        decreases addons@.len() - i,
    {
        let key_lower = to_lower(addons[i].slug.as_str());
        let key_base = base_string(key_lower.as_str());
        if str_eq(key_base.as_str(), base.as_str()) {
            proof {
                assert(is_first_base(addons@, base@, i as int));
                let w = choose|k: int| is_first_base(addons@, base@, k);
                if w < i {
                    assert(base_of(lower_of(addons@[w].slug@)) == base@);
                    assert(false);
                }
                if w > i {
                    assert(base_of(lower_of(addons@[i as int].slug@)) != base@);
                    assert(false);
                }
            }
            return Some(i);
        }
        i += 1;
    }
    proof {
        if exists|k: int| is_first_base(addons@, base_of(lower_of(slug@)), k) {
            let w = choose|k: int| is_first_base(addons@, base_of(lower_of(slug@)), k);
            assert(base_of(lower_of(addons@[w].slug@)) == base_of(lower_of(slug@)));
            assert(false);
        }
    }
    None
}

/// Whether the catalog can supply bytes for the addon: a release asset,
/// or a synthesized branch archive for repository-sourced entries.
pub open spec fn spec_has_url(a: IndexAddon) -> bool {
    a.latest_release is Some || a.source.source_type@ == "github"@
}

/// The download URL resolution assigns the addon.
pub open spec fn spec_url_of(a: IndexAddon) -> Seq<char> {
    match a.latest_release {
        Some(r) => r.download_url@,
        None => "https://api.github.com/repos/"@ + a.source.repo@ + "/zipball/"@
            + a.source.branch@,
    }
}

/// The version label resolution assigns the addon.
pub open spec fn spec_version_of(a: IndexAddon) -> Seq<char> {
    match a.latest_release {
        Some(r) => r.version@,
        None => a.source.branch@ + "-latest"@,
    }
}

/// View-level equality of install instructions.
pub open spec fn install_info_eq(x: InstallInfo, y: InstallInfo) -> bool {
    &&& x.method@ == y.method@
    &&& opt_str_view(x.extract_path) == opt_str_view(y.extract_path)
    &&& x.target_folder@ == y.target_folder@
    &&& views_of(x.excludes@) == views_of(y.excludes@)
}

/// A field-by-field copy of install instructions.
fn dup_install_info(x: &InstallInfo) -> (r: InstallInfo)
    ensures
        install_info_eq(r, *x),
{
    let extract_path = match &x.extract_path {
        Option::Some(p) => Option::Some(p.clone()),
        Option::None => Option::None,
    };
    let mut excludes: Vec<String> = Vec::new();
    let mut i: usize = 0;
    while i < x.excludes.len()
        invariant
            i <= x.excludes@.len(),
            excludes@.len() == i,
            forall|j: int| 0 <= j < i ==> excludes@[j]@ == x.excludes@[j]@,
        decreases x.excludes@.len() - i,
    {
        excludes.push(x.excludes[i].clone());
        i += 1;
    }
    proof {
        assert(views_of(excludes@) =~= views_of(x.excludes@));
    }
    InstallInfo {
        method: x.method.clone(),
        extract_path,
        target_folder: x.target_folder.clone(),
        excludes,
    }
}

/// Whether a resolved entry carries exactly what the catalog addon
/// offers.
pub open spec fn resolved_matches(r: ResolvedDependency, a: IndexAddon) -> bool {
    &&& r.slug@ == a.slug@
    &&& r.name@ == a.name@
    &&& r.download_url@ == spec_url_of(a)
    &&& r.version@ == spec_version_of(a)
    &&& install_info_eq(r.install_info, a.install)
}

/// The required dependencies a catalog addon declares.
pub open spec fn deps_of(a: IndexAddon) -> Seq<String> {
    a.compatibility.required_dependencies@
}

/// Whether some catalog addon declares `d` among its required
/// dependencies.
pub open spec fn dep_in_catalog(addons: Seq<IndexAddon>, d: Seq<char>) -> bool {
    exists|i: int, j: int|
        0 <= i < addons.len() && 0 <= j < deps_of(addons[i]).len() && (#[trigger] deps_of(
            addons[i],
        )[j])@ == d
}

/// How many dependency strings of the catalog are not yet visited, one
/// addon's list at a time; the walk's termination measure.
pub open spec fn unvisited_in_list(deps: Seq<String>, visited: Seq<Seq<char>>) -> nat
    decreases deps.len(),
{
    if deps.len() == 0 {
        0
    } else {
        unvisited_in_list(deps.drop_last(), visited) + (if visited.contains(
            lower_of(deps.last()@),
        ) {
            0nat
        } else {
            1nat
        })
    }
}

/// How many dependency strings over the whole catalog are not yet
/// visited.
pub open spec fn unvisited_total(addons: Seq<IndexAddon>, visited: Seq<Seq<char>>) -> nat
    decreases addons.len(),
{
    if addons.len() == 0 {
        0
    } else {
        unvisited_total(addons.drop_last(), visited) + unvisited_in_list(
            deps_of(addons.last()),
            visited,
        )
    }
}

proof fn lemma_unvisited_list_mono(deps: Seq<String>, visited: Seq<Seq<char>>, x: Seq<char>)
    ensures
        unvisited_in_list(deps, visited.push(x)) <= unvisited_in_list(deps, visited),
    decreases deps.len(),
{
    if deps.len() > 0 {
        lemma_unvisited_list_mono(deps.drop_last(), visited, x);
        let l = lower_of(deps.last()@);
        if visited.contains(l) {
            let k = choose|k: int| 0 <= k < visited.len() && visited[k] == l;
            assert(visited.push(x)[k] == l);
            assert(visited.push(x).contains(l));
        }
    }
}

proof fn lemma_unvisited_list_strict(
    deps: Seq<String>,
    visited: Seq<Seq<char>>,
    x: Seq<char>,
    j: int,
)
    requires
        0 <= j < deps.len(),
        lower_of(deps[j]@) == x,
        !visited.contains(x),
    ensures
        unvisited_in_list(deps, visited.push(x)) < unvisited_in_list(deps, visited),
    decreases deps.len(),
{
    let l = lower_of(deps.last()@);
    if j == deps.len() - 1 {
        lemma_unvisited_list_mono(deps.drop_last(), visited, x);
        assert(visited.push(x)[visited.len() as int] == x);
        assert(visited.push(x).contains(x));
    } else {
        lemma_unvisited_list_strict(deps.drop_last(), visited, x, j);
        if visited.contains(l) {
            let k = choose|k: int| 0 <= k < visited.len() && visited[k] == l;
            assert(visited.push(x)[k] == l);
            assert(visited.push(x).contains(l));
        }
    }
}

proof fn lemma_unvisited_total_mono(addons: Seq<IndexAddon>, visited: Seq<Seq<char>>, x: Seq<char>)
    ensures
        unvisited_total(addons, visited.push(x)) <= unvisited_total(addons, visited),
    decreases addons.len(),
{
    if addons.len() > 0 {
        lemma_unvisited_total_mono(addons.drop_last(), visited, x);
        lemma_unvisited_list_mono(deps_of(addons.last()), visited, x);
    }
}

proof fn lemma_unvisited_total_strict(
    addons: Seq<IndexAddon>,
    visited: Seq<Seq<char>>,
    x: Seq<char>,
    i: int,
    j: int,
)
    requires
        0 <= i < addons.len(),
        0 <= j < deps_of(addons[i]).len(),
        lower_of(deps_of(addons[i])[j]@) == x,
        !visited.contains(x),
    ensures
        unvisited_total(addons, visited.push(x)) < unvisited_total(addons, visited),
    decreases addons.len(),
{
    if i == addons.len() - 1 {
        lemma_unvisited_total_mono(addons.drop_last(), visited, x);
        lemma_unvisited_list_strict(deps_of(addons.last()), visited, x, j);
    } else {
        lemma_unvisited_total_strict(addons.drop_last(), visited, x, i, j);
        lemma_unvisited_list_mono(deps_of(addons.last()), visited, x);
    }
}

/// Install order: depths never increase along the list.
pub open spec fn depth_sorted(s: Seq<ResolvedDependency>) -> bool {
    forall|k1: int, k2: int| 0 <= k1 < k2 < s.len() ==> s[k1].depth >= s[k2].depth
}

/// No two entries name the same addon.
pub open spec fn distinct_slugs(v: Seq<ResolvedDependency>) -> bool {
    forall|a: int, b: int| 0 <= a < b < v.len() ==> v[a].slug@ != v[b].slug@
}

/// No two strings have the same characters.
pub open spec fn distinct_views(v: Seq<String>) -> bool {
    forall|a: int, b: int| 0 <= a < b < v.len() ==> v[a]@ != v[b]@
}

/// Whether a resolved entry is justified: some catalog addon matches it,
/// has a usable URL, and some non-installed dependency string that does
/// not name the root found that addon.
pub open spec fn resolved_entry_ok(
    r: ResolvedDependency,
    addons: Seq<IndexAddon>,
    installed: Seq<InstalledAddon>,
    root_slug: Seq<char>,
) -> bool {
    exists|i: int|
        {
            &&& 0 <= i < addons.len()
            &&& resolved_matches(r, #[trigger] addons[i])
            &&& spec_has_url(addons[i])
            &&& exists|d: Seq<char>|
                dep_in_catalog(addons, d) && !spec_dep_installed(d, installed) && lower_of(d)
                    != root_slug && #[trigger] spec_find_in_index(addons, d) == Some(i)
        }
}

/// The subsequence of entries at one depth, in their original order.
pub open spec fn depth_filter(s: Seq<ResolvedDependency>, d: usize) -> Seq<ResolvedDependency>
    decreases s.len(),
{
    if s.len() == 0 {
        Seq::empty()
    } else if s.last().depth == d {
        depth_filter(s.drop_last(), d).push(s.last())
    } else {
        depth_filter(s.drop_last(), d)
    }
}

proof fn lemma_depth_filter_add(a: Seq<ResolvedDependency>, b: Seq<ResolvedDependency>, d: usize)
    ensures
        depth_filter(a + b, d) == depth_filter(a, d) + depth_filter(b, d),
    decreases b.len(),
{
    if b.len() == 0 {
        assert(a + b =~= a);
        assert(depth_filter(a, d) + depth_filter(b, d) =~= depth_filter(a, d));
    } else {
        lemma_depth_filter_add(a, b.drop_last(), d);
        assert((a + b).drop_last() =~= a + b.drop_last());
        assert((a + b).last() == b.last());
        if b.last().depth == d {
            assert(depth_filter(a, d) + depth_filter(b, d) =~= (depth_filter(a, d)
                + depth_filter(b.drop_last(), d)).push(b.last()));
        }
    }
}

proof fn lemma_depth_filter_absent(s: Seq<ResolvedDependency>, d: usize)
    requires
        forall|i: int| 0 <= i < s.len() ==> (#[trigger] s[i]).depth != d,
    ensures
        depth_filter(s, d) == Seq::<ResolvedDependency>::empty(),
    decreases s.len(),
{
    if s.len() > 0 {
        lemma_depth_filter_absent(s.drop_last(), d);
    }
}

/// Orders resolved entries by descending depth.  Entries of equal depth
/// keep their relative order: at every depth the output's subsequence
/// equals the input's.
pub fn sort_by_depth_desc(v: Vec<ResolvedDependency>) -> (out: Vec<ResolvedDependency>)
    ensures
        out@.to_multiset() == v@.to_multiset(),
        depth_sorted(out@),
        forall|d: usize| #[trigger] depth_filter(out@, d) == depth_filter(v@, d),
    decreases v@.len(),
{
    broadcast use vstd::seq_lib::group_to_multiset_ensures;

    let mut rest = v;
    let mut out: Vec<ResolvedDependency> = Vec::new();
    proof {
        assert(out@.to_multiset().add(rest@.to_multiset()) =~= v@.to_multiset());
        assert forall|d: usize|
            #[trigger] depth_filter(out@, d) + depth_filter(rest@, d) == depth_filter(
            v@,
            d,
        ) by {
            assert(depth_filter(out@, d) + depth_filter(rest@, d) =~= depth_filter(v@, d));
        }
    }
    while rest.len() > 0
        invariant
            out@.to_multiset().add(rest@.to_multiset()) == v@.to_multiset(),
            depth_sorted(out@),
            forall|a: int, b: int|
                0 <= a < out@.len() && 0 <= b < rest@.len() ==> out@[a].depth >= rest@[b].depth,
            forall|d: usize|
                #[trigger] depth_filter(out@, d) + depth_filter(rest@, d) == depth_filter(v@, d),
        decreases rest@.len(),
    {
        broadcast use vstd::seq_lib::group_to_multiset_ensures;

        let mut m: usize = 0;
        let mut k: usize = 1;
        while k < rest.len()
            invariant
                rest@.len() > 0,
                m < k,
                k <= rest@.len(),
                forall|t: int| 0 <= t < k ==> rest@[m as int].depth >= rest@[t].depth,
                forall|t: int| 0 <= t < m ==> rest@[t].depth < rest@[m as int].depth,
            decreases rest@.len() - k,
        {
            if rest[k].depth > rest[m].depth {
                m = k;
            }
            k += 1;
        }
        let ghost rest0 = rest@;
        let ghost out0 = out@;
        let x = rest.remove(m);
        out.push(x);
        proof {
            assert(rest0.contains(x)) by {
                assert(rest0[m as int] == x);
            }
            assert(rest0.to_multiset().count(x) > 0);
            assert(out@.to_multiset().add(rest@.to_multiset()) =~= v@.to_multiset());
            assert(forall|b: int|
                0 <= b < rest@.len() ==> x.depth >= #[trigger] rest@[b].depth) by {
                assert(forall|b: int|
                    0 <= b < rest@.len() ==> rest@[b] == if b < m {
                        rest0[b]
                    } else {
                        rest0[b + 1]
                    });
            }
            let head = rest0.subrange(0, m as int);
            let tail = rest0.subrange(m + 1, rest0.len() as int);
            assert(rest0 =~= head + (seq![x] + tail));
            assert(rest@ =~= head + tail);
            assert forall|d: usize|
                #[trigger] depth_filter(out@, d) + depth_filter(rest@, d) == depth_filter(
                v@,
                d,
            ) by {
                lemma_depth_filter_add(head, seq![x] + tail, d);
                lemma_depth_filter_add(seq![x], tail, d);
                lemma_depth_filter_add(head, tail, d);
                assert(seq![x].drop_last() =~= Seq::<ResolvedDependency>::empty());
                assert(depth_filter(Seq::<ResolvedDependency>::empty(), d)
                    =~= Seq::<ResolvedDependency>::empty());
                assert(seq![x].last() == x);
                assert(out@ =~= out0.push(x));
                assert(out@.drop_last() =~= out0);
                if d == x.depth {
                    lemma_depth_filter_absent(head, d);
                    assert(depth_filter(seq![x], d) =~= seq![x]);
                    assert(depth_filter(out@, d) =~= depth_filter(out0, d).push(x));
                    assert(depth_filter(out@, d) + depth_filter(rest@, d) =~= depth_filter(
                        out0,
                        d,
                    ) + depth_filter(rest0, d));
                } else {
                    assert(depth_filter(seq![x], d) =~= Seq::<ResolvedDependency>::empty());
                    assert(depth_filter(out@, d) =~= depth_filter(out0, d));
                    assert(depth_filter(out@, d) + depth_filter(rest@, d) =~= depth_filter(
                        out0,
                        d,
                    ) + depth_filter(rest0, d));
                }
            }
        }
    }
    proof {
        assert forall|d: usize| #[trigger] depth_filter(out@, d) == depth_filter(v@, d) by {
            assert(depth_filter(rest@, d) =~= Seq::<ResolvedDependency>::empty());
            assert(depth_filter(out@, d) =~= depth_filter(out@, d) + depth_filter(rest@, d));
        }
    }
    out
}

proof fn lemma_multiset_contains_transfer(a: Seq<ResolvedDependency>, b: Seq<ResolvedDependency>)
    requires
        a.to_multiset() == b.to_multiset(),
    ensures
        forall|x: ResolvedDependency| #[trigger] a.contains(x) ==> b.contains(x),
        forall|x: ResolvedDependency| #[trigger] b.contains(x) ==> a.contains(x),
{
    broadcast use vstd::seq_lib::group_to_multiset_ensures;

    assert forall|x: ResolvedDependency| #[trigger] a.contains(x) implies b.contains(x) by {
        assert(a.to_multiset().count(x) > 0);
        assert(b.to_multiset().count(x) > 0);
    }
    assert forall|x: ResolvedDependency| #[trigger] b.contains(x) implies a.contains(x) by {
        assert(b.to_multiset().count(x) > 0);
        assert(a.to_multiset().count(x) > 0);
    }
}

/// The prepared lowered slug list matches the installed records entry
/// for entry.
pub open spec fn slug_views_correspond(
    slug_views: Seq<Seq<char>>,
    inst: Seq<InstalledAddon>,
) -> bool {
    &&& slug_views.len() == inst.len()
    &&& forall|i: int| 0 <= i < inst.len() ==> #[trigger] slug_views[i] == lower_of(inst[i].slug@)
}

/// The prepared lowered folder list holds exactly the folder names of
/// the installed records that have one; `src` records, for each listed
/// folder name, which installed record it came from.
pub open spec fn folder_views_correspond(
    folder_views: Seq<Seq<char>>,
    inst: Seq<InstalledAddon>,
    src: Seq<int>,
) -> bool {
    &&& src.len() == folder_views.len()
    &&& forall|k: int|
        0 <= k < folder_views.len() ==> 0 <= #[trigger] src[k] < inst.len() && spec_folder_lower(
            inst[src[k]],
        ) == Some(folder_views[k])
    &&& forall|t: int|
        0 <= t < inst.len() ==> (match #[trigger] spec_folder_lower(inst[t]) {
            Some(f) => folder_views.contains(f),
            None => true,
        })
}

#[verifier::rlimit(60)]
proof fn lemma_installed_bridge(
    dl: Seq<char>,
    slug_views: Seq<Seq<char>>,
    folder_views: Seq<Seq<char>>,
    inst: Seq<InstalledAddon>,
    src: Seq<int>,
)
    requires
        slug_views_correspond(slug_views, inst),
        folder_views_correspond(folder_views, inst, src),
    ensures
        spec_installed_views(dl, slug_views, folder_views) == spec_installed_lowered(dl, inst),
{
    let sl = lower_of(dl);
    let base = base_of(sl);
    if slug_views.contains(sl) {
        let k = choose|k: int| 0 <= k < slug_views.len() && slug_views[k] == sl;
        assert(lower_of(inst[k].slug@) == sl);
    }
    if exists|i: int| 0 <= i < inst.len() && lower_of(inst[i].slug@) == sl {
        let i = choose|i: int| 0 <= i < inst.len() && lower_of(inst[i].slug@) == sl;
        assert(slug_views[i] == sl);
        assert(slug_views.contains(sl));
    }
    if folder_views.contains(sl) {
        let k = choose|k: int| 0 <= k < folder_views.len() && folder_views[k] == sl;
        assert(spec_folder_lower(inst[src[k]]) == Some(sl));
    }
    if exists|i: int| 0 <= i < inst.len() && spec_folder_lower(inst[i]) == Some(sl) {
        let i = choose|i: int| 0 <= i < inst.len() && spec_folder_lower(inst[i]) == Some(sl);
        let k = choose|k: int| 0 <= k < folder_views.len() && folder_views[k] == sl;
        assert(folder_views.contains(sl));
    }
    assert((exists|i: int|
        0 <= i < slug_views.len() && (starts_with_spec(#[trigger] slug_views[i], base)
            || starts_with_spec(base, slug_views[i]))) == (exists|i: int|
        0 <= i < inst.len() && (starts_with_spec(lower_of(#[trigger] inst[i].slug@), base)
            || starts_with_spec(base, lower_of(inst[i].slug@))))) by {
        if exists|i: int|
            0 <= i < slug_views.len() && (starts_with_spec(#[trigger] slug_views[i], base)
                || starts_with_spec(base, slug_views[i])) {
            let i = choose|i: int|
                0 <= i < slug_views.len() && (starts_with_spec(#[trigger] slug_views[i], base)
                    || starts_with_spec(base, slug_views[i]));
            assert(slug_views[i] == lower_of(inst[i].slug@));
        }
        if exists|i: int|
            0 <= i < inst.len() && (starts_with_spec(lower_of(#[trigger] inst[i].slug@), base)
                || starts_with_spec(base, lower_of(inst[i].slug@))) {
            let i = choose|i: int|
                0 <= i < inst.len() && (starts_with_spec(lower_of(#[trigger] inst[i].slug@), base)
                    || starts_with_spec(base, lower_of(inst[i].slug@)));
            assert(slug_views[i] == lower_of(inst[i].slug@));
        }
    }
    assert((exists|i: int|
        0 <= i < folder_views.len() && (starts_with_spec(#[trigger] folder_views[i], base)
            || starts_with_spec(base, folder_views[i]))) == (exists|i: int|
        0 <= i < inst.len() && (match #[trigger] spec_folder_lower(inst[i]) {
            Some(f) => starts_with_spec(f, base) || starts_with_spec(base, f),
            None => false,
        }))) by {
        if exists|i: int|
            0 <= i < folder_views.len() && (starts_with_spec(#[trigger] folder_views[i], base)
                || starts_with_spec(base, folder_views[i])) {
            let k = choose|i: int|
                0 <= i < folder_views.len() && (starts_with_spec(#[trigger] folder_views[i], base)
                    || starts_with_spec(base, folder_views[i]));
            let t = src[k];
            assert(match spec_folder_lower(inst[t]) {
                Some(f) => starts_with_spec(f, base) || starts_with_spec(base, f),
                None => false,
            });
        }
        if exists|i: int|
            0 <= i < inst.len() && (match #[trigger] spec_folder_lower(inst[i]) {
                Some(f) => starts_with_spec(f, base) || starts_with_spec(base, f),
                None => false,
            }) {
            let i = choose|i: int|
                0 <= i < inst.len() && (match #[trigger] spec_folder_lower(inst[i]) {
                    Some(f) => starts_with_spec(f, base) || starts_with_spec(base, f),
                    None => false,
                });
            let f = spec_folder_lower(inst[i])->0;
            let k = choose|k: int| 0 <= k < folder_views.len() && folder_views[k] == f;
            assert(starts_with_spec(folder_views[k], base) || starts_with_spec(
                base,
                folder_views[k],
            ));
        }
    }
}

/// The first position in `v` whose string has exactly the characters of
/// `x`, if any.
fn find_str_idx(v: &Vec<String>, x: &str) -> (r: Option<usize>)
    ensures
        match r {
            Some(i) => i < v@.len() && v@[i as int]@ == x@,
            None => forall|j: int| 0 <= j < v@.len() ==> (#[trigger] v@[j])@ != x@,
        },
{
    let mut i: usize = 0;
    while i < v.len()
        invariant
            i <= v@.len(),
            forall|j: int| 0 <= j < i ==> (#[trigger] v@[j])@ != x@,
        decreases v@.len() - i,
    {
        if str_eq(v[i].as_str(), x) {
            return Some(i);
        }
        i += 1;
    }
    None
}

/// The first position of `v` naming the given slug, if any.
fn resolved_find_slug(v: &Vec<ResolvedDependency>, s: &str) -> (r: Option<usize>)
    ensures
        match r {
            Some(k) => k < v@.len() && v@[k as int].slug@ == s@,
            None => forall|j: int| 0 <= j < v@.len() ==> (#[trigger] v@[j]).slug@ != s@,
        },
{
    let mut k: usize = 0;
    while k < v.len()
        invariant
            k <= v@.len(),
            forall|j: int| 0 <= j < k ==> (#[trigger] v@[j]).slug@ != s@,
        decreases v@.len() - k,
    {
        if str_eq(v[k].slug.as_str(), s) {
            return Some(k);
        }
        k += 1;
    }
    None
}

/// No two catalog addons share a slug: the catalog keys entries by it.
pub open spec fn distinct_catalog_slugs(addons: Seq<IndexAddon>) -> bool {
    forall|a: int, b: int|
        #![trigger addons[a], addons[b]]
        0 <= a < b < addons.len() ==> addons[a].slug@ != addons[b].slug@
}

/// Where a processed dependency string shows up in the result: installed
/// ones in `already_installed`, catalog finds with a URL as a resolved
/// entry under the found slug, the rest in `unresolved`.
pub open spec fn spec_classified(
    d: Seq<char>,
    addons: Seq<IndexAddon>,
    installed: Seq<InstalledAddon>,
    resolved: Seq<ResolvedDependency>,
    already: Seq<String>,
    unresolved: Seq<String>,
) -> bool {
    if spec_dep_installed(d, installed) {
        exists|k: int| 0 <= k < already.len() && (#[trigger] already[k])@ == d
    } else {
        match spec_find_in_index(addons, d) {
            Some(fi) => if spec_has_url(addons[fi]) {
                exists|k: int| 0 <= k < resolved.len() && (#[trigger] resolved[k]).slug@
                    == addons[fi].slug@
            } else {
                exists|k: int| 0 <= k < unresolved.len() && (#[trigger] unresolved[k])@ == d
            },
            None => exists|k: int| 0 <= k < unresolved.len() && (#[trigger] unresolved[k])@ == d,
        }
    }
}

/// `spec_classified` with the landing position named: position `k` of
/// the list the classification rule selects.
pub open spec fn classified_at(
    d: Seq<char>,
    k: int,
    addons: Seq<IndexAddon>,
    installed: Seq<InstalledAddon>,
    resolved: Seq<ResolvedDependency>,
    already: Seq<String>,
    unresolved: Seq<String>,
) -> bool {
    if spec_dep_installed(d, installed) {
        0 <= k < already.len() && already[k]@ == d
    } else {
        match spec_find_in_index(addons, d) {
            Some(fi) => if spec_has_url(addons[fi]) {
                0 <= k < resolved.len() && resolved[k].slug@ == addons[fi].slug@
            } else {
                0 <= k < unresolved.len() && unresolved[k]@ == d
            },
            None => 0 <= k < unresolved.len() && unresolved[k]@ == d,
        }
    }
}

/// How the resolution accounts for one required dependency: it names the
/// resolution root, or some processed dependency string with the same
/// lowered form was classified into the result.
pub open spec fn spec_dep_accounted(
    d: Seq<char>,
    root_slug: Seq<char>,
    addons: Seq<IndexAddon>,
    installed: Seq<InstalledAddon>,
    resolved: Seq<ResolvedDependency>,
    already: Seq<String>,
    unresolved: Seq<String>,
) -> bool {
    ||| lower_of(d) == root_slug
    ||| exists|p: String|
        {
            &&& #[trigger] dep_in_catalog(addons, p@)
            &&& lower_of(p@) == lower_of(d)
            &&& spec_classified(p@, addons, installed, resolved, already, unresolved)
        }
}

/// A resolved entry's own required dependencies are all accounted for:
/// resolution recursed into the addon it installed.
pub open spec fn resolved_children_accounted(
    r: ResolvedDependency,
    root_slug: Seq<char>,
    addons: Seq<IndexAddon>,
    installed: Seq<InstalledAddon>,
    resolved: Seq<ResolvedDependency>,
    already: Seq<String>,
    unresolved: Seq<String>,
) -> bool {
    exists|i: int|
        {
            &&& 0 <= i < addons.len()
            &&& resolved_matches(r, #[trigger] addons[i])
            &&& forall|j: int|
                0 <= j < deps_of(addons[i]).len() ==> spec_dep_accounted(
                    (#[trigger] deps_of(addons[i])[j])@,
                    root_slug,
                    addons,
                    installed,
                    resolved,
                    already,
                    unresolved,
                )
        }
}

/// Whether the enqueued dependency at position `t` is still in the
/// worklist or already visited, each with its position named.
pub open spec fn covered_at(
    t: int,
    todo: Seq<String>,
    sw: Seq<int>,
    vw: Seq<int>,
    stack: Seq<(String, usize)>,
    visited: Seq<String>,
) -> bool {
    if sw[t] >= 0 {
        sw[t] < stack.len() && stack[sw[t]].0@ == todo[t]@
    } else {
        0 <= vw[t] < visited.len() && visited[vw[t]]@ == lower_of(todo[t]@)
    }
}

/// The stack-position witnesses after the top entry is taken off: every
/// pointer to the popped slot turns into a visited pointer.
pub open spec fn flip_sw(sw: Seq<int>, popped: int) -> Seq<int> {
    Seq::new(sw.len(), |t: int| if sw[t] == popped { -1 } else { sw[t] })
}

/// The visited-position witnesses after the top entry is taken off.
pub open spec fn flip_vw(sw: Seq<int>, vw: Seq<int>, popped: int, vi: int) -> Seq<int> {
    Seq::new(vw.len(), |t: int| if sw[t] == popped { vi } else { vw[t] })
}

proof fn lemma_flip_covered(
    todo: Seq<String>,
    sw: Seq<int>,
    vw: Seq<int>,
    stack0: Seq<(String, usize)>,
    stack1: Seq<(String, usize)>,
    vis0: Seq<String>,
    vis1: Seq<String>,
    vi: int,
)
    requires
        sw.len() == todo.len(),
        vw.len() == todo.len(),
        stack0.len() >= 1,
        stack1 == stack0.drop_last(),
        vis0.len() <= vis1.len(),
        forall|k: int| 0 <= k < vis0.len() ==> vis1[k] == vis0[k],
        0 <= vi < vis1.len(),
        vis1[vi]@ == lower_of(stack0.last().0@),
        forall|t: int| 0 <= t < todo.len() ==> #[trigger] covered_at(t, todo, sw, vw, stack0, vis0),
    ensures
        forall|t: int|
            0 <= t < todo.len() ==> #[trigger] covered_at(
                t,
                todo,
                flip_sw(sw, stack0.len() - 1),
                flip_vw(sw, vw, stack0.len() - 1, vi),
                stack1,
                vis1,
            ),
{
    let popped = stack0.len() - 1;
    assert forall|t: int| 0 <= t < todo.len() implies covered_at(
        t,
        todo,
        flip_sw(sw, popped),
        flip_vw(sw, vw, popped, vi),
        stack1,
        vis1,
    ) by {
        assert(covered_at(t, todo, sw, vw, stack0, vis0));
        if sw[t] == popped {
            assert(stack0[popped].0@ == todo[t]@);
            assert(stack0[popped] == stack0.last());
            assert(vis1[vi]@ == lower_of(todo[t]@));
            assert(flip_sw(sw, popped)[t] == -1);
            assert(flip_vw(sw, vw, popped, vi)[t] == vi);
        } else {
            assert(flip_sw(sw, popped)[t] == sw[t]);
            assert(flip_vw(sw, vw, popped, vi)[t] == vw[t]);
            if sw[t] >= 0 {
                assert(sw[t] < stack0.len() && stack0[sw[t]].0@ == todo[t]@);
                assert(stack1[sw[t]] == stack0[sw[t]]);
            } else {
                assert(0 <= vw[t] < vis0.len() && vis0[vw[t]]@ == lower_of(todo[t]@));
                assert(vis1[vw[t]] == vis0[vw[t]]);
            }
        }
    }
}

proof fn lemma_exists_first_exact(addons: Seq<IndexAddon>, s: Seq<char>, i0: int)
    requires
        0 <= i0 < addons.len(),
        addons[i0].slug@ == s,
    ensures
        exists|i: int| is_first_exact(addons, s, i),
    decreases i0,
{
    if forall|j: int| 0 <= j < i0 ==> (#[trigger] addons[j]).slug@ != s {
        assert(is_first_exact(addons, s, i0));
    } else {
        let j = choose|j: int| 0 <= j < i0 && (#[trigger] addons[j]).slug@ == s;
        lemma_exists_first_exact(addons, s, j);
    }
}

/// Resolves the transitive required dependencies of the addon with the
/// given slug, against the catalog and the set of installed addons.
///
/// The walk starts from the root's declared dependencies, skips anything
/// already visited (cycle protection), classifies each dependency as
/// already installed, installable or unresolved, and finally orders the
/// installable entries deepest first — dependencies install before their
/// dependents; `sort_by_depth_desc` carries the ordering contract,
/// including that entries of equal depth keep their relative discovery
/// order.  The contract pins the walk down: every dependency the
/// root declares, and every dependency each resolved addon declares, is
/// accounted for in the result; nothing appears twice within a list; the
/// installable and unresolved lists never share a slug, nor do the
/// installed and unresolved lists.  Termination for every input, cycles
/// included, is what the loop's `decreases` measure proves: each
/// processed dependency adds a new lowered slug to the visited list,
/// bounded by the catalog's finitely many dependency strings.
#[verifier::rlimit(100)]
pub fn resolve_dependencies(
    slug: &str,
    index: &AddonIndex,
    installed: &[InstalledAddon],
) -> (res: DependencyResult)
    requires
        distinct_catalog_slugs(index.addons@),
    ensures
        spec_find_exact(index.addons@, slug@) is None ==> res.resolved@.len() == 0
            && res.already_installed@.len() == 0 && res.unresolved@.len() == 0,
        depth_sorted(res.resolved@),
        distinct_slugs(res.resolved@),
        distinct_views(res.already_installed@),
        distinct_views(res.unresolved@),
        forall|k: int|
            0 <= k < res.resolved@.len() ==> resolved_entry_ok(
                #[trigger] res.resolved@[k],
                index.addons@,
                installed@,
                slug@,
            ),
        forall|k: int|
            0 <= k < res.already_installed@.len() ==> spec_dep_installed(
                (#[trigger] res.already_installed@[k])@,
                installed@,
            ) && dep_in_catalog(index.addons@, res.already_installed@[k]@) && lower_of(
                res.already_installed@[k]@,
            ) != slug@,
        forall|k: int|
            0 <= k < res.unresolved@.len() ==> !spec_dep_installed(
                (#[trigger] res.unresolved@[k])@,
                installed@,
            ) && dep_in_catalog(index.addons@, res.unresolved@[k]@) && lower_of(
                res.unresolved@[k]@,
            ) != slug@ && (match spec_find_in_index(index.addons@, res.unresolved@[k]@) {
                Some(i) => !spec_has_url(index.addons@[i]),
                None => true,
            }),
        forall|a: int, b: int|
            0 <= a < res.already_installed@.len() && 0 <= b < res.unresolved@.len() ==> (
            #[trigger] res.already_installed@[a])@ != (#[trigger] res.unresolved@[b])@,
        forall|a: int, b: int|
            0 <= a < res.resolved@.len() && 0 <= b < res.unresolved@.len() ==> (
            #[trigger] res.resolved@[a]).slug@ != (#[trigger] res.unresolved@[b])@,
        match spec_find_exact(index.addons@, slug@) {
            Some(ri) => forall|j: int|
                0 <= j < deps_of(index.addons@[ri]).len() ==> spec_dep_accounted(
                    (#[trigger] deps_of(index.addons@[ri])[j])@,
                    slug@,
                    index.addons@,
                    installed@,
                    res.resolved@,
                    res.already_installed@,
                    res.unresolved@,
                ),
            None => true,
        },
        forall|k: int|
            0 <= k < res.resolved@.len() ==> resolved_children_accounted(
                #[trigger] res.resolved@[k],
                slug@,
                index.addons@,
                installed@,
                res.resolved@,
                res.already_installed@,
                res.unresolved@,
            ),
{
    let ghost A = index.addons@;
    let ghost I = installed@;
    let ri = match find_exact_idx(&index.addons, slug) {
        Some(i) => i,
        None => {
            return DependencyResult {
                resolved: Vec::new(),
                already_installed: Vec::new(),
                unresolved: Vec::new(),
            };
        },
    };
    // Lowered installed slugs, in order.
    let mut islugs: Vec<String> = Vec::new();
    let mut i: usize = 0;
    while i < installed.len()
        invariant
            I == installed@,
            i <= I.len(),
            islugs@.len() == i,
            forall|k: int| 0 <= k < i ==> (#[trigger] islugs@[k])@ == lower_of(I[k].slug@),
        decreases I.len() - i,
    {
        islugs.push(to_lower(installed[i].slug.as_str()));
        i += 1;
    }
    // Lowered folder names holding installed manifests.
    let mut ifolders: Vec<String> = Vec::new();
    let ghost mut fsrc: Seq<int> = Seq::empty();
    let mut i: usize = 0;
    while i < installed.len()
        invariant
            I == installed@,
            i <= I.len(),
            fsrc.len() == ifolders@.len(),
            forall|k: int|
                0 <= k < fsrc.len() ==> 0 <= #[trigger] fsrc[k] < I.len() && spec_folder_lower(
                    I[fsrc[k]],
                ) == Some(ifolders@[k]@),
            forall|t: int|
                0 <= t < i ==> (match #[trigger] spec_folder_lower(I[t]) {
                    Some(f) => exists|k: int|
                        0 <= k < ifolders@.len() && (#[trigger] ifolders@[k])@ == f,
                    None => true,
                }),
        decreases I.len() - i,
    {
        let ghost if0 = ifolders@;
        match manifest_parent_folder(installed[i].manifest_path.as_str()) {
            Option::Some(f) => {
                let fl = to_lower(f.as_str());
                proof {
                    assert(spec_folder_lower(I[i as int]) == Some(fl@));
                }
                ifolders.push(fl);
                proof {
                    fsrc = fsrc.push(i as int);
                    assert(ifolders@.last()@ == spec_folder_lower(I[i as int])->0);
                    assert(forall|k: int|
                        0 <= k < fsrc.len() - 1 ==> #[trigger] fsrc[k] == fsrc.drop_last()[k]);
                    assert forall|t: int| 0 <= t < i + 1 implies (
                    match #[trigger] spec_folder_lower(I[t]) {
                        Some(f2) => exists|k: int|
                            0 <= k < ifolders@.len() && (#[trigger] ifolders@[k])@ == f2,
                        None => true,
                    }) by {
                        if t < i {
                            match spec_folder_lower(I[t]) {
                                Some(f2) => {
                                    let k = choose|k: int|
                                        0 <= k < if0.len() && (#[trigger] if0[k])@ == f2;
                                    assert(ifolders@[k]@ == f2);
                                },
                                None => {},
                            }
                        } else {
                            assert(ifolders@[ifolders@.len() - 1]@ == spec_folder_lower(
                                I[t],
                            )->0);
                        }
                    }
                }
            },
            Option::None => {},
        }
        i += 1;
    }
    proof {
        assert(forall|k: int|
            0 <= k < islugs@.len() ==> #[trigger] views_of(islugs@)[k] == islugs@[k]@);
        assert(slug_views_correspond(views_of(islugs@), I));
        assert(forall|k: int|
            0 <= k < ifolders@.len() ==> #[trigger] views_of(ifolders@)[k] == ifolders@[k]@);
        assert forall|t: int| 0 <= t < I.len() implies (match #[trigger] spec_folder_lower(
            I[t],
        ) {
            Some(f) => views_of(ifolders@).contains(f),
            None => true,
        }) by {
            match spec_folder_lower(I[t]) {
                Some(f) => {
                    let k = choose|k: int|
                        0 <= k < ifolders@.len() && (#[trigger] ifolders@[k])@ == f;
                    assert(views_of(ifolders@)[k] == f);
                    assert(views_of(ifolders@).contains(f));
                },
                None => {},
            }
        }
        assert(folder_views_correspond(views_of(ifolders@), I, fsrc));
    }
    let mut resolved: Vec<ResolvedDependency> = Vec::new();
    let mut already: Vec<String> = Vec::new();
    let mut unresolved: Vec<String> = Vec::new();
    let mut visited: Vec<String> = Vec::new();
    visited.push(String::from_str(slug));
    let ghost mut processed: Seq<String> = Seq::empty();
    let ghost mut w: Seq<int> = Seq::empty();
    let ghost mut todo: Seq<String> = Seq::empty();
    let ghost mut sw: Seq<int> = Seq::empty();
    let ghost mut vw: Seq<int> = Seq::empty();
    let ghost mut rmeta_a: Seq<int> = Seq::empty();
    let ghost mut rmeta_s: Seq<int> = Seq::empty();
    // Worklist of (slug, depth), topmost entry processed first; the
    // root's dependencies go in reversed so the first declared comes out
    // first.
    let mut stack: Vec<(String, usize)> = Vec::new();
    let root_dep_count = index.addons[ri].compatibility.required_dependencies.len();
    let mut k = root_dep_count;
    while k > 0
        invariant
            A == index.addons@,
            0 <= ri < A.len(),
            k <= root_dep_count,
            root_dep_count == deps_of(A[ri as int]).len(),
            stack@.len() == root_dep_count - k,
            todo.len() == stack@.len(),
            sw.len() == todo.len(),
            vw.len() == todo.len(),
            forall|t: int|
                0 <= t < stack@.len() ==> (#[trigger] stack@[t]).0@ == deps_of(A[ri as int])[
                    root_dep_count - 1 - t
                ]@ && stack@[t].1 == 0,
            forall|t: int|
                0 <= t < todo.len() ==> (#[trigger] todo[t])@ == deps_of(A[ri as int])[
                    root_dep_count - 1 - t
                ]@,
            forall|t: int| 0 <= t < todo.len() ==> #[trigger] sw[t] == t,
        decreases k,
    {
        k -= 1;
        stack.push((index.addons[ri].compatibility.required_dependencies[k].clone(), 0));
        proof {
            todo = todo.push(index.addons[ri as int].compatibility.required_dependencies@[
                k as int
            ]);
            sw = sw.push(stack@.len() - 1);
            vw = vw.push(-1);
        }
    }
    proof {
        assert forall|t: int| 0 <= t < stack@.len() implies dep_in_catalog(
            A,
            (#[trigger] stack@[t]).0@,
        ) by {
            assert(0 <= ri < A.len() && 0 <= root_dep_count - 1 - t < deps_of(A[ri as int]).len()
                && (deps_of(A[ri as int])[root_dep_count - 1 - t])@ == stack@[t].0@);
        }
        assert forall|t: int| 0 <= t < todo.len() implies covered_at(
            t,
            todo,
            sw,
            vw,
            stack@,
            visited@,
        ) by {
            assert(sw[t] == t && stack@[t].0@ == todo[t]@);
        }
    }
    while stack.len() > 0
        invariant
            A == index.addons@,
            I == installed@,
            distinct_catalog_slugs(A),
            0 <= ri < A.len(),
            spec_find_exact(A, slug@) == Some(ri as int),
            root_dep_count == deps_of(A[ri as int]).len(),
            slug_views_correspond(views_of(islugs@), I),
            folder_views_correspond(views_of(ifolders@), I, fsrc),
            // visited structure
            visited@.len() == 1 + processed.len(),
            visited@[0]@ == slug@,
            forall|v: int|
                1 <= v < visited@.len() ==> (#[trigger] visited@[v])@ == lower_of(
                    processed[v - 1]@,
                ),
            // processed dependencies and their landing positions
            w.len() == processed.len(),
            forall|t: int|
                0 <= t < processed.len() ==> dep_in_catalog(A, (#[trigger] processed[t])@),
            forall|t: int|
                0 <= t < processed.len() ==> lower_of((#[trigger] processed[t])@) != slug@,
            forall|t: int|
                0 <= t < processed.len() ==> classified_at(
                    (#[trigger] processed[t])@,
                    w[t],
                    A,
                    I,
                    resolved@,
                    already@,
                    unresolved@,
                ),
            // every enqueued dependency is in the worklist or visited
            todo.len() >= root_dep_count,
            forall|j: int|
                0 <= j < root_dep_count ==> (#[trigger] todo[j])@ == deps_of(A[ri as int])[
                    root_dep_count - 1 - j
                ]@,
            sw.len() == todo.len(),
            vw.len() == todo.len(),
            forall|t: int|
                0 <= t < todo.len() ==> #[trigger] covered_at(t, todo, sw, vw, stack@, visited@),
            // worklist entries
            forall|t: int|
                0 <= t < stack@.len() ==> dep_in_catalog(A, (#[trigger] stack@[t]).0@),
            forall|t: int| 0 <= t < stack@.len() ==> (#[trigger] stack@[t]).1 < visited@.len(),
            // list soundness
            forall|t: int|
                0 <= t < already@.len() ==> spec_dep_installed((#[trigger] already@[t])@, I)
                    && dep_in_catalog(A, already@[t]@) && lower_of(already@[t]@) != slug@,
            forall|t: int|
                0 <= t < unresolved@.len() ==> !spec_dep_installed(
                    (#[trigger] unresolved@[t])@,
                    I,
                ) && dep_in_catalog(A, unresolved@[t]@) && lower_of(unresolved@[t]@) != slug@
                    && (match spec_find_in_index(A, unresolved@[t]@) {
                    Some(fi) => !spec_has_url(A[fi]),
                    None => true,
                }),
            forall|t: int|
                0 <= t < resolved@.len() ==> resolved_entry_ok(
                    #[trigger] resolved@[t],
                    A,
                    I,
                    slug@,
                ),
            // resolved entries carry their catalog position and the todo
            // range their dependencies were enqueued into
            rmeta_a.len() == resolved@.len(),
            rmeta_s.len() == resolved@.len(),
            forall|t: int|
                0 <= t < resolved@.len() ==> 0 <= #[trigger] rmeta_a[t] < A.len()
                    && resolved_matches(resolved@[t], A[rmeta_a[t]]) && 0 <= rmeta_s[t]
                    && rmeta_s[t] + deps_of(A[rmeta_a[t]]).len() <= todo.len(),
            forall|t: int, m: int|
                0 <= t < resolved@.len() && 0 <= m < deps_of(A[rmeta_a[t]]).len() ==> (
                #[trigger] todo[rmeta_s[t] + m])@ == deps_of(A[rmeta_a[t]])[
                    deps_of(A[rmeta_a[t]]).len() - 1 - m
                ]@,
            distinct_slugs(resolved@),
            distinct_views(already@),
            distinct_views(unresolved@),
        decreases unvisited_total(A, views_of(visited@)), stack@.len(),
    {
        let ghost stack0 = stack@;
        let entry = stack.pop().unwrap();
        let dep = entry.0;
        let depth = entry.1;
        proof {
            assert(stack0[stack0.len() - 1].0@ == dep@);
            assert(dep_in_catalog(A, dep@));
        }
        let dep_lower = to_lower(dep.as_str());
        match find_str_idx(&visited, dep_lower.as_str()) {
            Option::Some(fi) => {
                proof {
                    lemma_flip_covered(
                        todo,
                        sw,
                        vw,
                        stack0,
                        stack@,
                        visited@,
                        visited@,
                        fi as int,
                    );
                    vw = flip_vw(sw, vw, stack0.len() - 1, fi as int);
                    sw = flip_sw(sw, stack0.len() - 1);
                }
                continue ;
            },
            Option::None => {},
        }
        proof {
            assert(visited@[0]@ != dep_lower@);
            assert(lower_of(dep@) != slug@);
        }
        let ghost visited0 = visited@;
        visited.push(dep_lower.clone());
        proof {
            assert(views_of(visited@) =~= views_of(visited0).push(dep_lower@));
            let (ci, cj) = choose|ci: int, cj: int|
                0 <= ci < A.len() && 0 <= cj < deps_of(A[ci]).len() && (#[trigger] deps_of(
                    A[ci],
                )[cj])@ == dep@;
            assert(!views_of(visited0).contains(dep_lower@)) by {
                if views_of(visited0).contains(dep_lower@) {
                    let v = choose|v: int|
                        0 <= v < views_of(visited0).len() && views_of(visited0)[v] == dep_lower@;
                    assert(visited0[v]@ == dep_lower@);
                    assert(false);
                }
            }
            lemma_unvisited_total_strict(A, views_of(visited0), dep_lower@, ci, cj);
            lemma_flip_covered(
                todo,
                sw,
                vw,
                stack0,
                stack@,
                visited0,
                visited@,
                visited0.len() as int,
            );
            vw = flip_vw(sw, vw, stack0.len() - 1, visited0.len() as int);
            sw = flip_sw(sw, stack0.len() - 1);
        }
        let ghost depg = dep;
        let inst = is_installed(dep_lower.as_str(), &islugs, &ifolders);
        proof {
            lemma_installed_bridge(dep_lower@, views_of(islugs@), views_of(ifolders@), I, fsrc);
            assert(inst == spec_dep_installed(dep@, I));
        }
        if inst {
            let widx: usize = match find_str_idx(&already, dep.as_str()) {
                Option::Some(ai) => ai,
                Option::None => {
                    already.push(dep);
                    already.len() - 1
                },
            };
            proof {
                assert(classified_at(depg@, widx as int, A, I, resolved@, already@, unresolved@));
                processed = processed.push(depg);
                w = w.push(widx as int);
            }
            continue ;
        }
        match find_in_index(dep.as_str(), &index.addons) {
            Option::None => {
                let widx: usize = match find_str_idx(&unresolved, dep.as_str()) {
                    Option::Some(ui) => ui,
                    Option::None => {
                        unresolved.push(dep);
                        unresolved.len() - 1
                    },
                };
                proof {
                    assert(classified_at(
                        depg@,
                        widx as int,
                        A,
                        I,
                        resolved@,
                        already@,
                        unresolved@,
                    ));
                    processed = processed.push(depg);
                    w = w.push(widx as int);
                }
                continue ;
            },
            Option::Some(ai) => {
                let addon = &index.addons[ai];
                let has_release = addon.latest_release.is_some();
                let is_github = str_eq(addon.source.source_type.as_str(), "github");
                if !has_release && !is_github {
                    proof {
                        assert(!spec_has_url(A[ai as int]));
                    }
                    let widx: usize = match find_str_idx(&unresolved, dep.as_str()) {
                        Option::Some(ui) => ui,
                        Option::None => {
                            unresolved.push(dep);
                            unresolved.len() - 1
                        },
                    };
                    proof {
                        assert(classified_at(
                            depg@,
                            widx as int,
                            A,
                            I,
                            resolved@,
                            already@,
                            unresolved@,
                        ));
                        processed = processed.push(depg);
                        w = w.push(widx as int);
                    }
                    continue ;
                }
                let (url, version) = match &addon.latest_release {
                    Option::Some(rel) => (rel.download_url.clone(), rel.version.clone()),
                    Option::None => {
                        let u = String::from_str("https://api.github.com/repos/").concat(
                            addon.source.repo.as_str(),
                        ).concat("/zipball/").concat(addon.source.branch.as_str());
                        let ver = addon.source.branch.clone().concat("-latest");
                        proof {
                            assert(u@ =~= spec_url_of(A[ai as int]));
                            assert(ver@ =~= spec_version_of(A[ai as int]));
                        }
                        (u, ver)
                    },
                };
                let ghost todo_mark = todo.len() as int;
                let ghost todo_pre = todo;
                let (widx, fresh): (usize, bool) = match resolved_find_slug(
                    &resolved,
                    addon.slug.as_str(),
                ) {
                    Option::Some(rk) => (rk, false),
                    Option::None => {
                        let info = dup_install_info(&addon.install);
                        resolved.push(
                            ResolvedDependency {
                                slug: addon.slug.clone(),
                                name: addon.name.clone(),
                                version,
                                download_url: url,
                                install_info: info,
                                depth,
                            },
                        );
                        proof {
                            assert(resolved_matches(resolved@.last(), A[ai as int]));
                            assert(dep_in_catalog(A, depg@) && !spec_dep_installed(depg@, I)
                                && lower_of(depg@) != slug@ && spec_find_in_index(A, depg@)
                                == Some(ai as int));
                            assert(resolved_entry_ok(resolved@.last(), A, I, slug@));
                        }
                        (resolved.len() - 1, true)
                    },
                };
                proof {
                    assert(spec_has_url(A[ai as int]));
                    assert(classified_at(
                        depg@,
                        widx as int,
                        A,
                        I,
                        resolved@,
                        already@,
                        unresolved@,
                    ));
                    processed = processed.push(depg);
                    w = w.push(widx as int);
                }
                let vl = visited.len();
                let nd = addon.compatibility.required_dependencies.len();
                let mut k2 = nd;
                while k2 > 0
                    invariant
                        A == index.addons@,
                        k2 <= nd,
                        ai < A.len(),
                        *addon == A[ai as int],
                        nd == deps_of(A[ai as int]).len(),
                        depth + 1 < vl,
                        vl == visited@.len(),
                        todo_mark == todo_pre.len(),
                        todo.len() == todo_mark + (nd - k2),
                        forall|j: int| 0 <= j < todo_mark ==> #[trigger] todo[j] == todo_pre[j],
                        sw.len() == todo.len(),
                        vw.len() == todo.len(),
                        forall|m: int|
                            0 <= m < nd - k2 ==> (#[trigger] todo[todo_mark + m])@ == deps_of(
                                A[ai as int],
                            )[nd - 1 - m]@,
                        forall|t: int|
                            0 <= t < todo.len() ==> #[trigger] covered_at(t, todo, sw, vw, stack@, visited@),
                        forall|t: int|
                            0 <= t < stack@.len() ==> dep_in_catalog(A, (#[trigger] stack@[t]).0@),
                        forall|t: int|
                            0 <= t < stack@.len() ==> (#[trigger] stack@[t]).1 < visited@.len(),
                    decreases k2,
                {
                    k2 -= 1;
                    let ghost stack1 = stack@;
                    let ghost todo1 = todo;
                    let ghost sw1 = sw;
                    let ghost vw1 = vw;
                    stack.push((addon.compatibility.required_dependencies[k2].clone(), depth + 1));
                    proof {
                        todo = todo.push(
                            index.addons[ai as int].compatibility.required_dependencies@[
                                k2 as int
                            ],
                        );
                        sw = sw.push(stack@.len() - 1);
                        vw = vw.push(-1);
                        assert(dep_in_catalog(A, (stack@.last()).0@)) by {
                            assert(0 <= ai < A.len() && 0 <= k2 < deps_of(A[ai as int]).len()
                                && (deps_of(A[ai as int])[k2 as int])@ == (stack@.last()).0@);
                        }
                        assert forall|t: int| 0 <= t < todo.len() implies covered_at(
                            t,
                            todo,
                            sw,
                            vw,
                            stack@,
                            visited@,
                        ) by {
                            if t < todo1.len() {
                                assert(covered_at(t, todo1, sw1, vw1, stack1, visited@));
                                if 0 <= sw1[t] < stack1.len() && stack1[sw1[t]].0@ == todo1[t]@ {
                                    assert(stack@[sw[t]] == stack1[sw1[t]]);
                                }
                            } else {
                                assert(sw[t] == stack@.len() - 1);
                                assert(stack@[sw[t]].0@ == todo[t]@);
                            }
                        }
                    }
                }
                proof {
                    assert(todo.len() == todo_mark + nd);
                    if fresh {
                        rmeta_a = rmeta_a.push(ai as int);
                        rmeta_s = rmeta_s.push(todo_mark);
                    }
                    assert forall|t: int| 0 <= t < resolved@.len() implies 0 <= #[trigger] rmeta_a[t]
                        < A.len() && resolved_matches(resolved@[t], A[rmeta_a[t]]) && 0
                        <= rmeta_s[t] && rmeta_s[t] + deps_of(A[rmeta_a[t]]).len()
                        <= todo.len() by {
                        if fresh && t == resolved@.len() - 1 {
                            assert(rmeta_a[t] == ai as int);
                            assert(rmeta_s[t] == todo_mark);
                        } else {
                            assert(rmeta_s[t] + deps_of(A[rmeta_a[t]]).len() <= todo_pre.len());
                        }
                    }
                    assert forall|t: int, mm: int|
                        0 <= t < resolved@.len() && 0 <= mm < deps_of(
                            A[rmeta_a[t]],
                        ).len() implies (#[trigger] todo[rmeta_s[t] + mm])@ == deps_of(
                        A[rmeta_a[t]],
                    )[deps_of(A[rmeta_a[t]]).len() - 1 - mm]@ by {
                        if fresh && t == resolved@.len() - 1 {
                            assert(todo[todo_mark + mm]@ == deps_of(A[ai as int])[nd - 1 - mm]@);
                        } else {
                            assert(rmeta_s[t] + mm < todo_pre.len());
                            assert(todo[rmeta_s[t] + mm] == todo_pre[rmeta_s[t] + mm]);
                            assert(todo_pre[rmeta_s[t] + mm]@ == deps_of(A[rmeta_a[t]])[
                                deps_of(A[rmeta_a[t]]).len() - 1 - mm
                            ]@);
                        }
                    }
                }
            },
        }
    }
    // The worklist is empty: order installable entries deepest first.
    let ghost resolved_pre = resolved@;
    let resolved_sorted = sort_by_depth_desc(resolved);
    let res = DependencyResult {
        resolved: resolved_sorted,
        already_installed: already,
        unresolved: unresolved,
    };
    proof {
        lemma_multiset_contains_transfer(resolved_pre, res.resolved@);
        // value-level properties transfer through the sort
        assert forall|t: int| 0 <= t < res.resolved@.len() implies resolved_entry_ok(
            #[trigger] res.resolved@[t],
            A,
            I,
            slug@,
        ) by {
            assert(res.resolved@.contains(res.resolved@[t]));
            assert(resolved_pre.contains(res.resolved@[t]));
            let j = choose|j: int|
                0 <= j < resolved_pre.len() && resolved_pre[j] == res.resolved@[t];
        }
        assert(distinct_slugs(res.resolved@)) by {
            assert(resolved_pre.no_duplicates()) by {
                assert forall|a: int, b: int|
                    0 <= a < b < resolved_pre.len() implies resolved_pre[a] != resolved_pre[b] by {
                    assert(resolved_pre[a].slug@ != resolved_pre[b].slug@);
                }
            }
            resolved_pre.lemma_multiset_has_no_duplicates();
            res.resolved@.lemma_multiset_has_no_duplicates_conv();
            assert forall|a: int, b: int|
                0 <= a < b < res.resolved@.len() implies res.resolved@[a].slug@
                != res.resolved@[b].slug@ by {
                if res.resolved@[a].slug@ == res.resolved@[b].slug@ {
                    assert(res.resolved@[a] != res.resolved@[b]);
                    assert(res.resolved@.contains(res.resolved@[a]));
                    assert(res.resolved@.contains(res.resolved@[b]));
                    assert(resolved_pre.contains(res.resolved@[a]));
                    assert(resolved_pre.contains(res.resolved@[b]));
                    let ja = choose|j: int|
                        0 <= j < resolved_pre.len() && resolved_pre[j] == res.resolved@[a];
                    let jb = choose|j: int|
                        0 <= j < resolved_pre.len() && resolved_pre[j] == res.resolved@[b];
                    assert(ja != jb);
                    assert(false);
                }
            }
        }
        // every enqueued dependency string is accounted for
        assert forall|t: int| 0 <= t < todo.len() implies spec_dep_accounted(
            (#[trigger] todo[t])@,
            slug@,
            A,
            I,
            res.resolved@,
            res.already_installed@,
            res.unresolved@,
        ) by {
            assert(covered_at(t, todo, sw, vw, stack@, visited@));
            assert(0 <= vw[t] < visited@.len() && visited@[vw[t]]@ == lower_of(todo[t]@));
            if vw[t] == 0 {
                assert(lower_of(todo[t]@) == slug@);
            } else {
                let p = processed[vw[t] - 1];
                assert(lower_of(p@) == visited@[vw[t]]@);
                assert(classified_at(
                    p@,
                    w[vw[t] - 1],
                    A,
                    I,
                    resolved_pre,
                    res.already_installed@,
                    res.unresolved@,
                ));
                let kk = w[vw[t] - 1];
                if spec_dep_installed(p@, I) {
                    assert(spec_classified(
                        p@,
                        A,
                        I,
                        res.resolved@,
                        res.already_installed@,
                        res.unresolved@,
                    )) by {
                        assert(res.already_installed@[kk]@ == p@);
                    }
                } else {
                    match spec_find_in_index(A, p@) {
                        Some(fi) => {
                            if spec_has_url(A[fi]) {
                                assert(resolved_pre[kk].slug@ == A[fi].slug@);
                                assert(resolved_pre.contains(resolved_pre[kk]));
                                assert(res.resolved@.contains(resolved_pre[kk]));
                                let k2 = choose|k2: int|
                                    0 <= k2 < res.resolved@.len() && res.resolved@[k2]
                                        == resolved_pre[kk];
                                assert(res.resolved@[k2].slug@ == A[fi].slug@);
                                assert(spec_classified(
                                    p@,
                                    A,
                                    I,
                                    res.resolved@,
                                    res.already_installed@,
                                    res.unresolved@,
                                ));
                            } else {
                                assert(res.unresolved@[kk]@ == p@);
                                assert(spec_classified(
                                    p@,
                                    A,
                                    I,
                                    res.resolved@,
                                    res.already_installed@,
                                    res.unresolved@,
                                ));
                            }
                        },
                        None => {
                            assert(res.unresolved@[kk]@ == p@);
                            assert(spec_classified(
                                p@,
                                A,
                                I,
                                res.resolved@,
                                res.already_installed@,
                                res.unresolved@,
                            ));
                        },
                    }
                }
                assert(dep_in_catalog(A, p@) && lower_of(p@) == lower_of(todo[t]@)
                    && spec_classified(
                    p@,
                    A,
                    I,
                    res.resolved@,
                    res.already_installed@,
                    res.unresolved@,
                ));
            }
        }
        // the root's declared dependencies are all enqueued at the start
        assert forall|j: int| 0 <= j < deps_of(A[ri as int]).len() implies spec_dep_accounted(
            (#[trigger] deps_of(A[ri as int])[j])@,
            slug@,
            A,
            I,
            res.resolved@,
            res.already_installed@,
            res.unresolved@,
        ) by {
            let t = root_dep_count - 1 - j;
            assert(todo[t]@ == deps_of(A[ri as int])[j]@);
            assert(spec_dep_accounted(
                todo[t]@,
                slug@,
                A,
                I,
                res.resolved@,
                res.already_installed@,
                res.unresolved@,
            ));
        }
        // each resolved addon's dependencies were all enqueued too
        assert forall|t: int| 0 <= t < res.resolved@.len() implies resolved_children_accounted(
            #[trigger] res.resolved@[t],
            slug@,
            A,
            I,
            res.resolved@,
            res.already_installed@,
            res.unresolved@,
        ) by {
            assert(res.resolved@.contains(res.resolved@[t]));
            assert(resolved_pre.contains(res.resolved@[t]));
            let kp = choose|kp: int|
                0 <= kp < resolved_pre.len() && resolved_pre[kp] == res.resolved@[t];
            let aik = rmeta_a[kp];
            let s0 = rmeta_s[kp];
            assert(0 <= aik < A.len() && resolved_matches(resolved_pre[kp], A[aik]));
            assert forall|j: int| 0 <= j < deps_of(A[aik]).len() implies spec_dep_accounted(
                (#[trigger] deps_of(A[aik])[j])@,
                slug@,
                A,
                I,
                res.resolved@,
                res.already_installed@,
                res.unresolved@,
            ) by {
                let m = deps_of(A[aik]).len() - 1 - j;
                assert(todo[s0 + m]@ == deps_of(A[aik])[j]@);
                assert(spec_dep_accounted(
                    todo[s0 + m]@,
                    slug@,
                    A,
                    I,
                    res.resolved@,
                    res.already_installed@,
                    res.unresolved@,
                ));
            }
            assert(resolved_children_accounted(
                res.resolved@[t],
                slug@,
                A,
                I,
                res.resolved@,
                res.already_installed@,
                res.unresolved@,
            ));
        }
        // cross-list disjointness
        assert forall|a: int, b: int|
            0 <= a < res.already_installed@.len() && 0 <= b
                < res.unresolved@.len() implies (#[trigger] res.already_installed@[a])@ != (
        #[trigger] res.unresolved@[b])@ by {}
        assert forall|a: int, b: int|
            0 <= a < res.resolved@.len() && 0 <= b < res.unresolved@.len() implies (
        #[trigger] res.resolved@[a]).slug@ != (#[trigger] res.unresolved@[b])@ by {
            if res.resolved@[a].slug@ == res.unresolved@[b]@ {
                let d = res.unresolved@[b]@;
                assert(resolved_entry_ok(res.resolved@[a], A, I, slug@));
                let i = choose|i: int|
                    {
                        &&& 0 <= i < A.len()
                        &&& resolved_matches(res.resolved@[a], #[trigger] A[i])
                        &&& spec_has_url(A[i])
                        &&& exists|dd: Seq<char>|
                            dep_in_catalog(A, dd) && !spec_dep_installed(dd, I) && lower_of(dd)
                                != slug@ && #[trigger] spec_find_in_index(A, dd) == Some(i)
                    };
                assert(A[i].slug@ == d);
                lemma_exists_first_exact(A, d, i);
                let f = choose|f: int| is_first_exact(A, d, f);
                assert(spec_find_exact(A, d) == Some(f));
                assert(is_first_exact(A, d, f));
                assert(A[f].slug@ == d);
                assert(f == i);
                assert(spec_find_in_index(A, d) == Some(i));
                assert(!spec_has_url(A[i]));
                assert(false);
            }
        }
    }
    res
}

} // verus!
