//! Manifest location inside an installed addon folder.  The filesystem
//! hands the library the folder's name and its files as plain values;
//! the library decides which file is the manifest.

use vstd::prelude::*;
use crate::chars::{contains_seq, ends_with_spec, ends_with_chars, chars_of, opt_str_view, str_eq};
use crate::manifest::is_manifest_content;
use crate::models::InstallInfo;
use crate::paths::join_spec;

verus! {

/// One file of an addon folder: its name and its content, where the
/// content reads as text.
#[derive(Debug, Clone)]
pub struct FsFile {
    pub name: String,
    /// The file's text, when it decodes as text.
    pub text: Option<String>,
}

/// Whether a file looks like a manifest: a manifest extension (a name
/// consisting only of the extension, like a bare dot-file, has none)
/// and a title header in its text.
pub open spec fn spec_is_manifest_file(f: FsFile) -> bool {
    &&& (ends_with_spec(f.name@, ".txt"@) && f.name@.len() > 4) || (ends_with_spec(
        f.name@,
        ".addon"@,
    ) && f.name@.len() > 6)
    &&& match f.text {
        Some(t) => contains_seq(t@, "## Title:"@),
        None => false,
    }
}

/// Whether the file name carries a manifest extension.
fn has_manifest_ext(name: &str, txt_suffix: &Vec<char>, addon_suffix: &Vec<char>) -> (r: bool)
    requires
        txt_suffix@ == ".txt"@,
        addon_suffix@ == ".addon"@,
    ensures
        r == ((ends_with_spec(name@, ".txt"@) && name@.len() > 4) || (ends_with_spec(
            name@,
            ".addon"@,
        ) && name@.len() > 6)),
{
    let name_chars = chars_of(name);
    (ends_with_chars(&name_chars, txt_suffix) && name_chars.len() > 4) || (ends_with_chars(
        &name_chars,
        addon_suffix,
    ) && name_chars.len() > 6)
}

/// Finds the manifest file of an addon folder: first the file named
/// exactly after the folder with the ".txt" extension, then with the
/// ".addon" extension, then any file with a manifest extension whose
/// text carries a title header.
pub fn get_manifest_path(addon_name: &str, files: &Vec<FsFile>) -> (r: Option<String>)
    ensures
        (exists|i: int| 0 <= i < files@.len() && (#[trigger] files@[i]).name@ == addon_name@
            + ".txt"@) ==> opt_str_view(r) == Some(addon_name@ + ".txt"@),
        !(exists|i: int| 0 <= i < files@.len() && (#[trigger] files@[i]).name@ == addon_name@
            + ".txt"@) && (exists|i: int|
            0 <= i < files@.len() && (#[trigger] files@[i]).name@ == addon_name@ + ".addon"@)
            ==> opt_str_view(r) == Some(addon_name@ + ".addon"@),
        !(exists|i: int| 0 <= i < files@.len() && (#[trigger] files@[i]).name@ == addon_name@
            + ".txt"@) && !(exists|i: int|
            0 <= i < files@.len() && (#[trigger] files@[i]).name@ == addon_name@ + ".addon"@)
            ==> (match r {
            Some(n) => exists|i: int|
                0 <= i < files@.len() && (#[trigger] files@[i]).name@ == n@
                    && spec_is_manifest_file(files@[i]),
            None => forall|i: int|
                0 <= i < files@.len() ==> !spec_is_manifest_file(#[trigger] files@[i]),
        }),
{
    let txt_name = String::from_str(addon_name).concat(".txt");
    let mut i: usize = 0;
    while i < files.len()
        invariant
            txt_name@ == addon_name@ + ".txt"@,
            i <= files@.len(),
            forall|j: int| 0 <= j < i ==> (#[trigger] files@[j]).name@ != txt_name@,
        decreases files@.len() - i,
    {
        if str_eq(files[i].name.as_str(), txt_name.as_str()) {
            return Some(txt_name);
        }
        i += 1;
    }
    let addon_ext_name = String::from_str(addon_name).concat(".addon");
    let mut i: usize = 0;
    while i < files.len()
        invariant
            txt_name@ == addon_name@ + ".txt"@,
            addon_ext_name@ == addon_name@ + ".addon"@,
            i <= files@.len(),
            forall|j: int| 0 <= j < files@.len() ==> (#[trigger] files@[j]).name@ != txt_name@,
            forall|j: int| 0 <= j < i ==> (#[trigger] files@[j]).name@ != addon_ext_name@,
        decreases files@.len() - i,
    {
        if str_eq(files[i].name.as_str(), addon_ext_name.as_str()) {
            return Some(addon_ext_name);
        }
        i += 1;
    }
    let txt_suffix = chars_of(".txt");
    let addon_suffix = chars_of(".addon");
    let mut i: usize = 0;
    while i < files.len()
        invariant
            txt_name@ == addon_name@ + ".txt"@,
            addon_ext_name@ == addon_name@ + ".addon"@,
            txt_suffix@ == ".txt"@,
            addon_suffix@ == ".addon"@,
            i <= files@.len(),
            forall|j: int| 0 <= j < files@.len() ==> (#[trigger] files@[j]).name@ != txt_name@,
            forall|j: int|
                0 <= j < files@.len() ==> (#[trigger] files@[j]).name@ != addon_ext_name@,
            forall|j: int| 0 <= j < i ==> !spec_is_manifest_file(#[trigger] files@[j]),
        decreases files@.len() - i,
    {
        let has_ext = has_manifest_ext(files[i].name.as_str(), &txt_suffix, &addon_suffix);
        if has_ext {
            match &files[i].text {
                Option::Some(t) => {
                    if is_manifest_content(t.as_str()) {
                        return Some(files[i].name.clone());
                    }
                },
                Option::None => {},
            }
        }
        i += 1;
    }
    None
}

/// Whether a folder's files include a manifest.
pub fn has_addon_content(files: &Vec<FsFile>) -> (r: bool)
    ensures
        r == exists|i: int| 0 <= i < files@.len() && spec_is_manifest_file(#[trigger] files@[i]),
{
    let txt_suffix = chars_of(".txt");
    let addon_suffix = chars_of(".addon");
    let mut i: usize = 0;
    while i < files.len()
        invariant
            txt_suffix@ == ".txt"@,
            addon_suffix@ == ".addon"@,
            i <= files@.len(),
            forall|j: int| 0 <= j < i ==> !spec_is_manifest_file(#[trigger] files@[j]),
        decreases files@.len() - i,
    {
        let has_ext = has_manifest_ext(files[i].name.as_str(), &txt_suffix, &addon_suffix);
        if has_ext {
            match &files[i].text {
                Option::Some(t) => {
                    if is_manifest_content(t.as_str()) {
                        return true;
                    }
                },
                Option::None => {},
            }
        }
        i += 1;
    }
    false
}

/// Whether the addon directory holds a folder of the given name.
pub fn addon_exists(folders: &Vec<String>, addon_name: &str) -> (r: bool)
    ensures
        r == (exists|i: int| 0 <= i < folders@.len() && (#[trigger] folders@[i])@ == addon_name@),
{
    crate::chars::vec_contains_str(folders, addon_name)
}

/// The destination folder an install-info-driven install writes into:
/// the catalog's target folder under the addon directory.
pub fn install_target_path(addon_dir: &str, install_info: &InstallInfo) -> (r: String)
    ensures
        r@ == join_spec(addon_dir@, install_info.target_folder@),
{
    crate::paths::join_path(addon_dir, install_info.target_folder.as_str())
}

/// The stem of a file name: the name without its final extension; the
/// whole name when it has no dot or only a leading one.
pub open spec fn spec_stem_of(name: Seq<char>) -> Seq<char> {
    match crate::manifest::find_last_dot(name) {
        None => name,
        Some(i) => if i == 0 {
            name
        } else {
            name.subrange(0, i)
        },
    }
}

/// The stem of a file name.
fn stem_string(name: &str) -> (r: String)
    ensures
        r@ == spec_stem_of(name@),
{
    let v = chars_of(name);
    let n = v.len();
    let mut i: usize = n;
    while i > 0
        invariant
            n == v@.len(),
            v@ == name@,
            i <= n,
            forall|j: int| i <= j < n ==> v@[j] != '.',
        decreases i,
    {
        i -= 1;
        if v[i] == '.' {
            proof {
                crate::manifest::lemma_find_last_dot_at(v@, i as int);
            }
            if i == 0 {
                return crate::chars::string_of(&v);
            }
            let stem = crate::chars::subrange_chars(&v, 0, i);
            return crate::chars::string_of(&stem);
        }
    }
    proof {
        crate::manifest::lemma_find_last_dot_none(v@);
    }
    crate::chars::string_of(&v)
}

/// Whether a manifest stem signals an example addon, which naming must
/// not prefer.
pub open spec fn example_stem(s: Seq<char>) -> bool {
    ||| (s.len() > 0 && s[0] == '_')
    ||| contains_seq(crate::chars::lower_of(s), "example"@)
}

fn is_example_stem(s: &str) -> (r: bool)
    ensures
        r == example_stem(s@),
{
    let sc = chars_of(s);
    if sc.len() > 0 && sc[0] == '_' {
        return true;
    }
    let lowered = crate::chars::to_lower(s);
    let lc = chars_of(lowered.as_str());
    let pat = chars_of("example");
    crate::chars::contains_chars(&lc, &pat)
}

/// The naming preference among manifest stems: stems that do not look
/// like examples come first, alphabetical order breaks ties.
pub open spec fn stem_le(a: Seq<char>, b: Seq<char>) -> bool {
    ||| (!example_stem(a) && example_stem(b))
    ||| (example_stem(a) == example_stem(b) && crate::chars::spec_chars_cmp(a, b)
        != core::cmp::Ordering::Greater)
}

proof fn lemma_stem_le_total(a: Seq<char>, b: Seq<char>)
    ensures
        stem_le(a, b) || stem_le(b, a),
{
    crate::chars::lemma_chars_cmp_flip(a, b);
}

proof fn lemma_stem_le_trans(a: Seq<char>, b: Seq<char>, c: Seq<char>)
    requires
        stem_le(a, b),
        stem_le(b, c),
    ensures
        stem_le(a, c),
{
    if example_stem(a) == example_stem(b) && example_stem(b) == example_stem(c) {
        crate::chars::lemma_chars_cmp_trans(a, b, c);
    }
}

fn stem_le_exec(a: &str, b: &str) -> (r: bool)
    ensures
        r == stem_le(a@, b@),
{
    let ea = is_example_stem(a);
    let eb = is_example_stem(b);
    if !ea && eb {
        return true;
    }
    if ea != eb {
        return false;
    }
    match crate::chars::str_cmp(a, b) {
        core::cmp::Ordering::Greater => false,
        _ => true,
    }
}

/// Picks the addon folder name from the manifest file names of a
/// discovered addon root: the stem of the most preferred manifest —
/// non-example stems first, alphabetical within that — names the folder
/// the addon must install into.  Nothing is returned exactly when the
/// list is empty.
pub fn pick_addon_name(manifest_names: &Vec<String>) -> (r: Option<String>)
    ensures
        match r {
            Some(s) => exists|i: int|
                0 <= i < manifest_names@.len() && s@ == spec_stem_of(
                    (#[trigger] manifest_names@[i])@,
                ) && forall|j: int|
                    0 <= j < manifest_names@.len() ==> stem_le(
                        spec_stem_of(manifest_names@[i]@),
                        spec_stem_of((#[trigger] manifest_names@[j])@),
                    ),
            None => manifest_names@.len() == 0,
        },
{
    if manifest_names.len() == 0 {
        return None;
    }
    let mut best: usize = 0;
    let mut best_stem = stem_string(manifest_names[0].as_str());
    proof {
        lemma_stem_le_total(best_stem@, best_stem@);
    }
    let mut j: usize = 1;
    while j < manifest_names.len()
        invariant
            manifest_names@.len() > 0,
            best < j,
            1 <= j <= manifest_names@.len(),
            best_stem@ == spec_stem_of(manifest_names@[best as int]@),
            forall|t: int|
                0 <= t < j ==> stem_le(
                    spec_stem_of(manifest_names@[best as int]@),
                    spec_stem_of((#[trigger] manifest_names@[t])@),
                ),
        decreases manifest_names@.len() - j,
    {
        let cand_stem = stem_string(manifest_names[j].as_str());
        if !stem_le_exec(best_stem.as_str(), cand_stem.as_str()) {
            proof {
                lemma_stem_le_total(best_stem@, cand_stem@);
                assert forall|t: int| 0 <= t < j + 1 implies stem_le(
                    spec_stem_of(manifest_names@[j as int]@),
                    spec_stem_of((#[trigger] manifest_names@[t])@),
                ) by {
                    if t < j {
                        lemma_stem_le_trans(
                            cand_stem@,
                            best_stem@,
                            spec_stem_of(manifest_names@[t]@),
                        );
                    } else {
                        lemma_stem_le_total(cand_stem@, cand_stem@);
                    }
                }
            }
            best = j;
            best_stem = cand_stem;
        }
        j += 1;
    }
    Some(best_stem)
}

} // verus!
