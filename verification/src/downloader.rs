//! Download source selection.  The byte fetching itself is an outside
//! collaborator; the library decides which candidate URL to use: direct
//! archive sources first, then any source whose URL names an archive
//! file, then the legacy fallback URL.

use vstd::prelude::*;
use crate::chars::{chars_of, ends_with_chars, ends_with_spec, opt_str_view, str_eq, views_of};
use crate::models::DownloadSource;

verus! {

/// Whether a source serves whole archives directly.
pub open spec fn is_archive_source(s: DownloadSource) -> bool {
    s.source_type@ == "github_archive"@
}

/// Whether a source's URL names an archive file.
pub open spec fn is_zip_url(s: DownloadSource) -> bool {
    ends_with_spec(s.url@, ".zip"@)
}

/// Whether `i` is the first direct-archive source.
pub open spec fn is_first_archive(sources: Seq<DownloadSource>, i: int) -> bool {
    &&& 0 <= i < sources.len()
    &&& is_archive_source(sources[i])
    &&& forall|j: int| 0 <= j < i ==> !is_archive_source(#[trigger] sources[j])
}

/// Whether `i` is the first source with an archive-file URL.
pub open spec fn is_first_zip(sources: Seq<DownloadSource>, i: int) -> bool {
    &&& 0 <= i < sources.len()
    &&& is_zip_url(sources[i])
    &&& forall|j: int| 0 <= j < i ==> !is_zip_url(#[trigger] sources[j])
}

/// Picks the best download URL: the first direct-archive source, else
/// the first source whose URL ends in ".zip", else the legacy fallback.
pub fn get_best_download_url(
    sources: &Vec<DownloadSource>,
    fallback_url: Option<&str>,
) -> (r: Option<String>)
    ensures
        (exists|i: int| is_first_archive(sources@, i)) ==> opt_str_view(r) == Some(
            sources@[choose|i: int| is_first_archive(sources@, i)].url@,
        ),
        !(exists|i: int| is_first_archive(sources@, i)) && (exists|i: int|
            is_first_zip(sources@, i)) ==> opt_str_view(r) == Some(
            sources@[choose|i: int| is_first_zip(sources@, i)].url@,
        ),
        !(exists|i: int| is_first_archive(sources@, i)) && !(exists|i: int|
            is_first_zip(sources@, i)) ==> opt_str_view(r) == (match fallback_url {
            Some(u) => Some(u@),
            None => None,
        }),
{
    let mut i: usize = 0;
    while i < sources.len()
        invariant
            i <= sources@.len(),
            forall|j: int| 0 <= j < i ==> !is_archive_source(#[trigger] sources@[j]),
        decreases sources@.len() - i,
    {
        if str_eq(sources[i].source_type.as_str(), "github_archive") {
            proof {
                assert(is_first_archive(sources@, i as int));
                let w = choose|k: int| is_first_archive(sources@, k);
                if w < i {
                    assert(is_archive_source(sources@[w]));
                    assert(false);
                }
                if w > i {
                    assert(!is_archive_source(sources@[i as int]));
                    assert(false);
                }
            }
            return Some(sources[i].url.clone());
        }
        i += 1;
    }
    proof {
        if exists|k: int| is_first_archive(sources@, k) {
            let w = choose|k: int| is_first_archive(sources@, k);
            assert(is_archive_source(sources@[w]));
            assert(false);
        }
    }
    let zip_suffix = chars_of(".zip");
    let mut i: usize = 0;
    while i < sources.len()
        invariant
            zip_suffix@ == ".zip"@,
            i <= sources@.len(),
            !(exists|k: int| is_first_archive(sources@, k)),
            forall|j: int| 0 <= j < i ==> !is_zip_url(#[trigger] sources@[j]),
        decreases sources@.len() - i,
    {
        let url_chars = chars_of(sources[i].url.as_str());
        if ends_with_chars(&url_chars, &zip_suffix) {
            proof {
                assert(is_first_zip(sources@, i as int));
                let w = choose|k: int| is_first_zip(sources@, k);
                if w < i {
                    assert(is_zip_url(sources@[w]));
                    assert(false);
                }
                if w > i {
                    assert(!is_zip_url(sources@[i as int]));
                    assert(false);
                }
            }
            return Some(sources[i].url.clone());
        }
        i += 1;
    }
    proof {
        if exists|k: int| is_first_zip(sources@, k) {
            let w = choose|k: int| is_first_zip(sources@, k);
            assert(is_zip_url(sources@[w]));
            assert(false);
        }
    }
    match fallback_url {
        Some(u) => Some(String::from_str(u)),
        None => None,
    }
}

/// The archive-typed source URLs, in listed order.
pub open spec fn spec_archive_urls(sources: Seq<DownloadSource>) -> Seq<Seq<char>>
    decreases sources.len(),
{
    if sources.len() == 0 {
        Seq::empty()
    } else {
        spec_archive_urls(sources.drop_last()) + (if is_archive_source(sources.last()) {
            seq![sources.last().url@]
        } else {
            Seq::empty()
        })
    }
}

/// The URLs of the remaining sources that name an archive file, in
/// listed order.
pub open spec fn spec_other_zip_urls(sources: Seq<DownloadSource>) -> Seq<Seq<char>>
    decreases sources.len(),
{
    if sources.len() == 0 {
        Seq::empty()
    } else {
        spec_other_zip_urls(sources.drop_last()) + (if !is_archive_source(sources.last())
            && is_zip_url(sources.last()) {
            seq![sources.last().url@]
        } else {
            Seq::empty()
        })
    }
}

/// The full trial order for a download: every direct-archive source in
/// listed order, then every other source whose URL names an archive
/// file, then the legacy fallback URL.
pub open spec fn spec_candidates(
    sources: Seq<DownloadSource>,
    fallback: Option<Seq<char>>,
) -> Seq<Seq<char>> {
    spec_archive_urls(sources) + spec_other_zip_urls(sources) + (match fallback {
        Some(u) => seq![u],
        None => Seq::<Seq<char>>::empty(),
    })
}

/// Lists every candidate URL in the order downloads must try them; the
/// caller attempts each in turn and fails only after the last.
pub fn candidate_urls(sources: &Vec<DownloadSource>, fallback_url: Option<&str>) -> (r: Vec<
    String,
>)
    ensures
        views_of(r@) == spec_candidates(
            sources@,
            match fallback_url {
                Some(u) => Some(u@),
                None => None,
            },
        ),
{
    let mut out: Vec<String> = Vec::new();
    let n = sources.len();
    let mut i: usize = 0;
    proof {
        assert(sources@.take(0) =~= Seq::<DownloadSource>::empty());
        assert(views_of(out@) =~= spec_archive_urls(sources@.take(0)));
    }
    while i < n
        invariant
            n == sources@.len(),
            i <= n,
            views_of(out@) == spec_archive_urls(sources@.take(i as int)),
        decreases n - i,
    {
        proof {
            assert(sources@.take(i + 1).drop_last() =~= sources@.take(i as int));
            assert(sources@.take(i + 1).last() == sources@[i as int]);
        }
        let ghost pre = out@;
        if str_eq(sources[i].source_type.as_str(), "github_archive") {
            out.push(sources[i].url.clone());
            proof {
                assert(views_of(out@) =~= views_of(pre).push(sources@[i as int].url@));
                assert(views_of(out@) =~= spec_archive_urls(sources@.take(i + 1)));
            }
        } else {
            proof {
                assert(views_of(out@) =~= spec_archive_urls(sources@.take(i + 1)));
            }
        }
        i += 1;
    }
    proof {
        assert(sources@.take(n as int) =~= sources@);
    }
    let ghost arch = views_of(out@);
    let zip_suffix = chars_of(".zip");
    let mut i: usize = 0;
    proof {
        assert(views_of(out@) =~= arch + spec_other_zip_urls(sources@.take(0)));
    }
    while i < n
        invariant
            n == sources@.len(),
            i <= n,
            zip_suffix@ == ".zip"@,
            views_of(out@) == arch + spec_other_zip_urls(sources@.take(i as int)),
        decreases n - i,
    {
        proof {
            assert(sources@.take(i + 1).drop_last() =~= sources@.take(i as int));
            assert(sources@.take(i + 1).last() == sources@[i as int]);
        }
        let ghost pre = out@;
        let is_arch = str_eq(sources[i].source_type.as_str(), "github_archive");
        let url_chars = chars_of(sources[i].url.as_str());
        if !is_arch && ends_with_chars(&url_chars, &zip_suffix) {
            out.push(sources[i].url.clone());
            proof {
                assert(views_of(out@) =~= views_of(pre).push(sources@[i as int].url@));
                assert(views_of(out@) =~= arch + spec_other_zip_urls(sources@.take(i + 1)));
            }
        } else {
            proof {
                assert(views_of(out@) =~= arch + spec_other_zip_urls(sources@.take(i + 1)));
            }
        }
        i += 1;
    }
    proof {
        assert(sources@.take(n as int) =~= sources@);
    }
    let ghost before_fb = views_of(out@);
    match fallback_url {
        Some(u) => {
            out.push(String::from_str(u));
            proof {
                assert(views_of(out@) =~= before_fb.push(u@));
                assert(views_of(out@) =~= spec_candidates(sources@, Some(u@)));
            }
        },
        None => {
            proof {
                assert(views_of(out@) =~= spec_candidates(sources@, None));
            }
        },
    }
    out
}

/// The archive URL for a repository branch, as the host lays it out.
pub fn get_github_branch_url(repo: &str, branch: &str) -> (r: String)
    ensures
        r@ == "https://github.com/"@ + repo@ + "/archive/refs/heads/"@ + branch@ + ".zip"@,
{
    let r = String::from_str("https://github.com/").concat(repo).concat(
        "/archive/refs/heads/",
    ).concat(branch).concat(".zip");
    proof {
        assert(r@ =~= "https://github.com/"@ + repo@ + "/archive/refs/heads/"@ + branch@
            + ".zip"@);
    }
    r
}

} // verus!
