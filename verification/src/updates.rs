//! Update detection for installed addons against the catalog.
//!
//! Branch-tracked installs compare commit identifiers; tagged installs
//! prefer the catalog's precomputed sort key and fall back to comparing
//! version strings.

use vstd::prelude::*;
use crate::chars::str_eq;
use crate::models::{IndexAddon, InstalledAddon};
use crate::version::{is_update_available, spec_cmp_versions};
use core::cmp::Ordering;

verus! {

/// Whether the catalog entry is on the moving-branch release channel.
pub open spec fn spec_branch_channel(e: IndexAddon) -> bool {
    match e.version_info {
        Some(vi) => match vi.release_channel {
            Some(c) => c@ == "branch"@,
            None => false,
        },
        None => false,
    }
}

/// What update checking decides for an installed addon against its
/// catalog entry.
pub open spec fn spec_index_update(a: InstalledAddon, e: IndexAddon) -> bool {
    if spec_branch_channel(e) {
        match (a.commit_sha, e.latest_release) {
            (Some(isha), Some(rel)) => match rel.commit_sha {
                Some(xsha) => isha@ != xsha@,
                None => false,
            },
            _ => false,
        }
    } else {
        match (a.version_sort_key, e.version_info) {
            (Some(ik), Some(vi)) => match vi.version_sort_key {
                Some(xk) => xk > ik,
                None => spec_string_fallback(a, e),
            },
            _ => spec_string_fallback(a, e),
        }
    }
}

/// The version-string fallback: the catalog release ranks strictly above
/// the installed version.
pub open spec fn spec_string_fallback(a: InstalledAddon, e: IndexAddon) -> bool {
    match e.latest_release {
        Some(rel) => spec_cmp_versions(rel.version@, a.installed_version@) == Ordering::Greater,
        None => false,
    }
}

/// Decides whether a catalog addon has an update for an installed one:
/// branch channels compare commit identifiers, otherwise the precomputed
/// sort keys compare directly, otherwise the version strings decide.
pub fn check_index_addon_update(addon: &InstalledAddon, index_entry: &IndexAddon) -> (r: bool)
    ensures
        r == spec_index_update(*addon, *index_entry),
{
    let is_branch = match &index_entry.version_info {
        Option::Some(vi) => match &vi.release_channel {
            Option::Some(c) => str_eq(c.as_str(), "branch"),
            Option::None => false,
        },
        Option::None => false,
    };
    if is_branch {
        match (&addon.commit_sha, &index_entry.latest_release) {
            (Option::Some(isha), Option::Some(rel)) => match &rel.commit_sha {
                Option::Some(xsha) => return !str_eq(isha.as_str(), xsha.as_str()),
                Option::None => return false,
            },
            _ => return false,
        }
    }
    match (&addon.version_sort_key, &index_entry.version_info) {
        (Option::Some(ik), Option::Some(vi)) => match vi.version_sort_key {
            Option::Some(xk) => {
                return xk > *ik;
            },
            Option::None => {},
        },
        _ => {},
    }
    match &index_entry.latest_release {
        Option::Some(rel) => is_update_available(
            addon.installed_version.as_str(),
            rel.version.as_str(),
        ),
        Option::None => false,
    }
}

} // verus!
