//! The article record: one news item, its content-equality contract, and
//! the deterministic names of its live and archived on-disk versions.

use vstd::prelude::*;

use crate::dates::spec_reverted;
use crate::dates::revert_galnet_date;
use crate::text::dec_str;
use crate::text::usize_to_string;

verus! {

/// One news item scraped from a page.
pub struct Article {
    /// Stable identifier taken from the canonical article URL; unique key.
    pub uid: String,
    /// Zero-based position of the article within its page.
    pub page_index: usize,
    pub title: String,
    /// Source-site free-text date.
    pub date: String,
    pub url: String,
    pub content: String,
    /// Timestamp of this scrape, second precision.
    pub extraction_date: String,
    /// True only on archived snapshots; false on the live version.
    pub deprecated: bool,
}

impl Article {
    /// Content equality, used to decide whether an article changed: uid,
    /// title, content, url and page position all match; the extraction
    /// timestamp and the archive mark are excluded.
    pub open spec fn content_equal(&self, other: &Article) -> bool {
        &&& self.uid@ == other.uid@
        &&& self.title@ == other.title@
        &&& self.content@ == other.content@
        &&& self.url@ == other.url@
        &&& self.page_index == other.page_index
    }
}

impl PartialEq for Article {
    fn eq(&self, other: &Self) -> (r: bool) {
        self.uid == other.uid && self.title == other.title && self.content == other.content
            && self.url == other.url && self.page_index == other.page_index
    }
}

impl Eq for Article {

}

impl vstd::std_specs::cmp::PartialEqSpecImpl for Article {
    open spec fn obeys_eq_spec() -> bool {
        true
    }

    open spec fn eq_spec(&self, other: &Self) -> bool {
        self.content_equal(other)
    }
}

/// The directory that holds one file per article version.
pub open spec fn spec_extracted_files_location() -> Seq<char> {
    "./galnet/files"@
}

/// The deterministic name of an article's live on-disk record: the
/// reformatted date, the page position and the uid.
pub open spec fn spec_article_filename(a: &Article) -> Seq<char> {
    spec_extracted_files_location() + "/"@ + spec_reverted(a.date@) + " - "@ + dec_str(
        a.page_index as nat,
    ) + " - "@ + a.uid@ + ".json"@
}

/// The name of the archived copy of a superseded record: the live name with
/// a run-timestamp suffix.
pub open spec fn spec_archive_filename(filename: Seq<char>, stamp: Seq<char>) -> Seq<char> {
    filename + " - "@ + stamp
}

/// Builds the live record filename of an article.
pub fn gen_article_filename(a: &Article) -> (r: String)
    ensures
        r@ == spec_article_filename(a),
{
    let r = "./galnet/files".to_owned().concat("/").concat(
        revert_galnet_date(a.date.as_str()).as_str(),
    ).concat(" - ").concat(usize_to_string(a.page_index).as_str()).concat(" - ").concat(
        a.uid.as_str(),
    ).concat(".json");
    proof {
        assert(r@ =~= spec_article_filename(a));
    }
    r
}

/// Builds the archive filename for a superseded record.
pub fn gen_archive_filename(filename: &str, stamp: &str) -> (r: String)
    ensures
        r@ == spec_archive_filename(filename@, stamp@),
{
    let r = filename.to_owned().concat(" - ").concat(stamp);
    proof {
        assert(r@ =~= spec_archive_filename(filename@, stamp@));
    }
    r
}

} // verus!
