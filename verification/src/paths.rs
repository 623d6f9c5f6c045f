//! Path-string helpers.  Paths are plain strings here; '/' and '\\' both
//! count as separators, and the functions state exactly which part of the
//! path they read or build.  The platform-specific discovery of real
//! directories lives outside the library.

use vstd::prelude::*;
use crate::chars::{chars_of, opt_str_view, string_of, subrange_chars};

verus! {

/// Whether `c` separates path components.
pub open spec fn is_sep_char(c: char) -> bool {
    c == '/' || c == '\\'
}

fn is_sep(c: char) -> (r: bool)
    ensures
        r == is_sep_char(c),
{
    c == '/' || c == '\\'
}

/// The last separator position in `s`, if any.
pub open spec fn rfind_sep(s: Seq<char>) -> Option<int>
    decreases s.len(),
{
    if s.len() == 0 {
        None
    } else if is_sep_char(s.last()) {
        Some(s.len() - 1)
    } else {
        rfind_sep(s.drop_last())
    }
}

proof fn lemma_rfind_sep_at(s: Seq<char>, e: int)
    requires
        0 <= e < s.len(),
        is_sep_char(s[e]),
        forall|j: int| e < j < s.len() ==> !is_sep_char(s[j]),
    ensures
        rfind_sep(s) == Some(e),
    decreases s.len(),
{
    if e == s.len() - 1 {
    } else {
        lemma_rfind_sep_at(s.drop_last(), e);
    }
}

proof fn lemma_rfind_sep_none(s: Seq<char>)
    requires
        forall|j: int| 0 <= j < s.len() ==> !is_sep_char(s[j]),
    ensures
        rfind_sep(s) is None,
    decreases s.len(),
{
    if s.len() > 0 {
        lemma_rfind_sep_none(s.drop_last());
    }
}

/// The last separator position, scanning right to left.
fn rfind_sep_idx(v: &Vec<char>) -> (r: Option<usize>)
    ensures
        match r {
            None => rfind_sep(v@) is None,
            Some(i) => rfind_sep(v@) == Some(i as int) && i < v@.len(),
        },
{
    let mut i: usize = v.len();
    while i > 0
        invariant
            i <= v@.len(),
            forall|j: int| i <= j < v@.len() ==> !is_sep_char(v@[j]),
        decreases i,
    {
        i -= 1;
        if is_sep(v[i]) {
            proof {
                lemma_rfind_sep_at(v@, i as int);
            }
            return Some(i);
        }
    }
    proof {
        lemma_rfind_sep_none(v@);
    }
    None
}

/// The sequence with trailing separators removed.
pub open spec fn strip_end_seps(s: Seq<char>) -> Seq<char>
    decreases s.len(),
{
    if s.len() > 0 && is_sep_char(s.last()) {
        strip_end_seps(s.drop_last())
    } else {
        s
    }
}

proof fn lemma_strip_end_seps_take(s: Seq<char>, hi: int)
    requires
        0 <= hi <= s.len(),
        forall|j: int| hi <= j < s.len() ==> is_sep_char(s[j]),
        hi == 0 || !is_sep_char(s[hi - 1]),
    ensures
        strip_end_seps(s) == s.take(hi),
    decreases s.len() - hi,
{
    if hi == s.len() {
        assert(s.take(hi) =~= s);
    } else {
        lemma_strip_end_seps_take(s.drop_last(), hi);
        assert(s.drop_last() =~= s.take(s.len() - 1));
        assert(s.drop_last().take(hi) =~= s.take(hi));
    }
}

/// The characters of `v` with trailing separators removed.
pub(crate) fn strip_end_seps_chars(v: &Vec<char>) -> (r: Vec<char>)
    ensures
        r@ == strip_end_seps(v@),
{
    let mut hi: usize = v.len();
    while hi > 0 && is_sep(v[hi - 1])
        invariant
            hi <= v@.len(),
            forall|j: int| hi <= j < v@.len() ==> is_sep_char(v@[j]),
        decreases hi,
    {
        hi -= 1;
    }
    proof {
        lemma_strip_end_seps_take(v@, hi as int);
    }
    subrange_chars(v, 0, hi)
}

/// The final path component: everything after the last separator.
pub open spec fn last_component(s: Seq<char>) -> Seq<char> {
    match rfind_sep(s) {
        None => s,
        Some(i) => s.skip(i + 1),
    }
}

pub(crate) fn last_component_chars(v: &Vec<char>) -> (r: Vec<char>)
    ensures
        r@ == last_component(v@),
{
    let n = v.len();
    match rfind_sep_idx(v) {
        None => subrange_chars(v, 0, n),
        Some(i) => {
            let r = subrange_chars(v, i + 1, n);
            proof {
                assert(r@ =~= v@.skip(i + 1));
            }
            r
        },
    }
}

/// The name of the folder that directly contains the named file: the
/// component before the file name, if the path has one.
pub open spec fn parent_folder_spec(s: Seq<char>) -> Option<Seq<char>> {
    match rfind_sep(s) {
        None => None,
        Some(i) => {
            let prefix = strip_end_seps(s.take(i));
            if prefix.len() == 0 {
                None
            } else {
                Some(last_component(prefix))
            }
        },
    }
}

/// The name of the folder containing the file the path names, e.g. the
/// addon folder of a manifest path.
pub fn manifest_parent_folder(path: &str) -> (r: Option<String>)
    ensures
        opt_str_view(r) == parent_folder_spec(path@),
{
    let v = chars_of(path);
    match rfind_sep_idx(&v) {
        None => None,
        Some(i) => {
            let head = subrange_chars(&v, 0, i);
            let prefix = strip_end_seps_chars(&head);
            if prefix.len() == 0 {
                None
            } else {
                let name = last_component_chars(&prefix);
                Some(string_of(&name))
            }
        },
    }
}

/// The path without its final component; what remains may be empty for a
/// single-component path.
pub open spec fn parent_dir_spec(s: Seq<char>) -> Option<Seq<char>> {
    let t = strip_end_seps(s);
    if t.len() == 0 {
        None
    } else {
        match rfind_sep(t) {
            None => Some(Seq::empty()),
            Some(i) => Some(strip_end_seps(t.take(i))),
        }
    }
}

/// The directory part of a path, if the path is not a bare root.
pub fn parent_dir(path: &str) -> (r: Option<String>)
    ensures
        opt_str_view(r) == parent_dir_spec(path@),
{
    let v = chars_of(path);
    let t = strip_end_seps_chars(&v);
    if t.len() == 0 {
        return None;
    }
    match rfind_sep_idx(&t) {
        None => {
            let empty: Vec<char> = Vec::new();
            proof {
                assert(empty@ =~= Seq::<char>::empty());
            }
            Some(string_of(&empty))
        },
        Some(i) => {
            let head = subrange_chars(&t, 0, i);
            let p = strip_end_seps_chars(&head);
            Some(string_of(&p))
        },
    }
}

/// What joining a directory and a name yields: the name alone when the
/// directory is empty, else the two separated by '/'.
pub open spec fn join_spec(dir: Seq<char>, name: Seq<char>) -> Seq<char> {
    if dir.len() == 0 {
        name
    } else {
        dir + seq!['/'] + name
    }
}

/// Joins a directory path and one component with '/'.
pub fn join_path(dir: &str, name: &str) -> (r: String)
    ensures
        r@ == join_spec(dir@, name@),
{
    let d = chars_of(dir);
    if d.len() == 0 {
        let n = chars_of(name);
        return string_of(&n);
    }
    let mut out = d;
    out.push('/');
    let n = chars_of(name);
    let mut i: usize = 0;
    while i < n.len()
        invariant
            i <= n@.len(),
            out@ =~= dir@ + seq!['/'] + n@.subrange(0, i as int),
        decreases n@.len() - i,
    {
        out.push(n[i]);
        i += 1;
    }
    proof {
        assert(out@ =~= join_spec(dir@, name@));
    }
    string_of(&out)
}

/// The addon directory to use: a custom path when one is set and names an
/// existing directory, else the platform default the caller detected.
pub fn get_eso_addon_path_with_custom(
    custom_path: Option<&str>,
    custom_is_dir: bool,
    default_path: Option<String>,
) -> (r: Option<String>)
    ensures
        match custom_path {
            Some(p) => if custom_is_dir {
                opt_str_view(r) == Some(p@)
            } else {
                r == default_path
            },
            None => r == default_path,
        },
{
    match custom_path {
        Some(p) => {
            if custom_is_dir {
                Some(String::from_str(p))
            } else {
                default_path
            }
        },
        None => default_path,
    }
}

/// The saved-variables directory that sits beside the addon directory.
pub fn get_saved_variables_path(addon_path: &str) -> (r: Option<String>)
    ensures
        match parent_dir_spec(addon_path@) {
            None => r is None,
            Some(p) => opt_str_view(r) == Some(join_spec(p, "SavedVariables"@)),
        },
{
    match parent_dir(addon_path) {
        None => None,
        Some(p) => Some(join_path(p.as_str(), "SavedVariables")),
    }
}

/// The database file path under the application data directory.
pub fn get_database_path(app_data_path: &str) -> (r: String)
    ensures
        r@ == join_spec(app_data_path@, "eso-addon-manager.db"@),
{
    join_path(app_data_path, "eso-addon-manager.db")
}

} // verus!
