//! Change-aware persistence: what to do with one freshly extracted article
//! given what is already on disk under its deterministic filename — write
//! it as new, skip it as unchanged, or archive the superseded version and
//! overwrite. Also the persisted shapes and paths of the bookkeeping files.

use vstd::prelude::*;

use crate::article::Article;
use crate::article::spec_archive_filename;
use crate::article::gen_archive_filename;
use crate::clock::now_archive_timestamp;
use crate::errors::GalnetError;
use crate::errors::spec_error_text;
use crate::text::contains_string;
use crate::text::unique_views;
use crate::text::views_of;

verus! {

/// What the persister must do for one article.
pub enum PersistPlan {
    /// No record exists at the article's path: write it as the live version.
    WriteNew,
    /// The existing record is content-equal: leave storage untouched.
    Skip,
    /// The existing record differs: write `archived` — the previous record
    /// marked deprecated — to the archive path, then overwrite the live
    /// version.
    ArchiveThenWrite { archived: Article },
}

/// The previous record, untouched but for the archive mark.
pub open spec fn is_archived_copy(archived: &Article, prev: &Article) -> bool {
    &&& archived.uid@ == prev.uid@
    &&& archived.page_index == prev.page_index
    &&& archived.title@ == prev.title@
    &&& archived.date@ == prev.date@
    &&& archived.url@ == prev.url@
    &&& archived.content@ == prev.content@
    &&& archived.extraction_date@ == prev.extraction_date@
    &&& archived.deprecated == true
}

/// Decides what to do with `incoming` given the record now living at its
/// path, if any. Re-running against unchanged content always yields `Skip`,
/// so storage is never touched twice for the same content; a changed
/// article always archives the previous version first.
pub fn plan_persist(existing: Option<Article>, incoming: &Article) -> (p: PersistPlan)
    ensures
        match existing {
            None => p is WriteNew,
            Some(prev) => {
                if prev.content_equal(incoming) {
                    p is Skip
                } else {
                    match p {
                        PersistPlan::ArchiveThenWrite { archived } => is_archived_copy(
                            &archived,
                            &prev,
                        ),
                        _ => false,
                    }
                }
            },
        },
{
    match existing {
        None => PersistPlan::WriteNew,
        Some(prev) => {
            if prev.eq(incoming) {
                PersistPlan::Skip
            } else {
                let mut archived = prev;
                archived.deprecated = true;
                PersistPlan::ArchiveThenWrite { archived }
            }
        },
    }
}

/// The persisted shape of a failed page: its URL and the rendered texts of
/// everything that went wrong with it in the latest run.
pub struct ErroredPage {
    pub url: String,
    pub errors: Vec<String>,
}

/// `rendered` holds exactly the rendered texts of `errors`, in order.
pub open spec fn renders_errors(rendered: Seq<String>, errors: Seq<GalnetError>) -> bool {
    &&& rendered.len() == errors.len()
    &&& forall|i: int| 0 <= i < errors.len() ==> #[trigger] rendered[i]@ == spec_error_text(&errors[i])
}

/// Renders a page's errors into the persisted failed-page shape.
pub fn errored_page(url: &str, errors: &Vec<GalnetError>) -> (r: ErroredPage)
    ensures
        r.url@ == url@,
        renders_errors(r.errors@, errors@),
{
    let mut rendered: Vec<String> = Vec::new();
    let n = errors.len();
    let mut i: usize = 0;
    while i < n
        invariant
            0 <= i <= n,
            n == errors@.len(),
            rendered@.len() == i,
            forall|j: int|
                0 <= j < i ==> #[trigger] rendered@[j]@ == spec_error_text(&errors@[j]),
        decreases n - i,
    {
        rendered.push(errors[i].to_string());
        i = i + 1;
    }
    ErroredPage { url: url.to_owned(), errors: rendered }
}

/// The file that records every page that has ever completed without error.
pub fn downloaded_pages_file() -> (r: String)
    ensures
        r@ == "./galnet/successful-pages.json"@,
{
    "./galnet/successful-pages.json".to_owned()
}

/// The file that records the currently failing pages.
pub fn failed_pages_file() -> (r: String)
    ensures
        r@ == "./galnet/failed-pages.json"@,
{
    "./galnet/failed-pages.json".to_owned()
}

/// The directory that holds one file per article version.
pub fn extracted_files_location() -> (r: String)
    ensures
        r@ == crate::article::spec_extracted_files_location(),
{
    "./galnet/files".to_owned()
}

/// The archive name for a superseded record: the live name suffixed with
/// the run timestamp taken from the wall clock.
pub fn gen_backup_filename(live: &str) -> (r: String)
    ensures
        exists|stamp: Seq<char>| r@ == spec_archive_filename(live@, stamp),
{
    let stamp = now_archive_timestamp();
    let r = gen_archive_filename(live, stamp.as_str());
    proof {
        assert(r@ == spec_archive_filename(live@, stamp@));
    }
    r
}

/// What a sequence of names collapses to when each is kept once, at its
/// first appearance.
pub open spec fn spec_dedup_first(v: Seq<Seq<char>>) -> Seq<Seq<char>>
    decreases v.len(),
{
    if v.len() == 0 {
        Seq::empty()
    } else {
        let rest = spec_dedup_first(v.drop_last());
        if rest.contains(v.last()) {
            rest
        } else {
            rest.push(v.last())
        }
    }
}

proof fn lemma_dedup_first_push(v: Seq<Seq<char>>, x: Seq<char>)
    ensures
        spec_dedup_first(v.push(x)) == (if spec_dedup_first(v).contains(x) {
            spec_dedup_first(v)
        } else {
            spec_dedup_first(v).push(x)
        }),
{
    assert(v.push(x).drop_last() =~= v);
    assert(v.push(x).last() == x);
}

/// The downloaded-pages set as loaded at the start of a run: the persisted
/// list with any repeated name collapsed to its first appearance, or the
/// empty set when no bookkeeping file exists yet — a missing file is a
/// first run, not an error.
pub fn list_downloaded_pages(raw: Option<Vec<String>>) -> (r: Vec<String>)
    ensures
        views_of(r@) == (match raw {
            Some(v) => spec_dedup_first(views_of(v@)),
            None => Seq::<Seq<char>>::empty(),
        }),
        unique_views(views_of(r@)),
{
    match raw {
        None => {
            let r: Vec<String> = Vec::new();
            proof {
                assert(views_of(r@) =~= Seq::<Seq<char>>::empty());
            }
            r
        },
        Some(v) => {
            let mut r: Vec<String> = Vec::new();
            let n = v.len();
            let mut i: usize = 0;
            proof {
                assert(views_of(v@).take(0) =~= Seq::<Seq<char>>::empty());
                assert(views_of(r@) =~= spec_dedup_first(views_of(v@).take(0)));
            }
            while i < n
                invariant
                    0 <= i <= n,
                    n == v@.len(),
                    views_of(r@) == spec_dedup_first(views_of(v@).take(i as int)),
                    unique_views(views_of(r@)),
                decreases n - i,
            {
                let ghost prefix = views_of(v@).take(i as int);
                proof {
                    assert(views_of(v@).take(i + 1) =~= prefix.push(views_of(v@)[i as int]));
                    assert(views_of(v@)[i as int] == v@[i as int]@);
                    lemma_dedup_first_push(prefix, views_of(v@)[i as int]);
                }
                if !contains_string(&r, &v[i]) {
                    let ghost old_views = views_of(r@);
                    r.push(v[i].clone());
                    proof {
                        assert(views_of(r@) =~= old_views.push(v@[i as int]@));
                    }
                }
                i = i + 1;
            }
            proof {
                assert(views_of(v@).take(n as int) =~= views_of(v@));
            }
            r
        },
    }
}

} // verus!
