//! Per-block article validation: each article block harvested from a page
//! either yields a fully populated record or a named parse error for the
//! first required field that is missing, checked in a fixed order — the
//! permalink, the uid inside it, then title, date and body text.

use vstd::prelude::*;

use crate::article::Article;
use crate::errors::GalnetError;
use crate::urls::site_base;
use crate::urls::spec_extracted_uid;
use crate::urls::with_site_base_url;
use crate::urls::extract_galnet_url_uid;

verus! {

/// What the selector layer found inside one article block: the permalink's
/// attribute value, and the trimmed inner text of the title, date and body
/// elements — each an explicit miss when absent.
pub struct ArticleBlock {
    pub url: Option<String>,
    pub title: Option<String>,
    pub date: Option<String>,
    pub content: Option<String>,
}

/// The absolute article URL of a block whose permalink was found.
pub open spec fn spec_block_url(b: &ArticleBlock) -> Seq<char>
    recommends
        b.url is Some,
{
    site_base() + b.url.unwrap()@
}

/// The uid embedded in a block's absolute URL.
pub open spec fn spec_block_uid(b: &ArticleBlock) -> Seq<char>
    recommends
        b.url is Some,
        spec_extracted_uid(spec_block_url(b)) is Some,
{
    spec_extracted_uid(spec_block_url(b)).unwrap()
}

/// A block has everything a record needs.
pub open spec fn block_complete(b: &ArticleBlock) -> bool {
    &&& b.url is Some
    &&& spec_extracted_uid(spec_block_url(b)) is Some
    &&& b.title is Some
    &&& b.date is Some
    &&& b.content is Some
}

/// The cause text reported for the first missing field of an incomplete
/// block.
pub open spec fn spec_block_error(b: &ArticleBlock) -> Seq<char>
    recommends
        !block_complete(b),
{
    if b.url is None {
        "Couldn't find article url"@
    } else if spec_extracted_uid(spec_block_url(b)) is None {
        "Couldn't find article \""@ + spec_block_url(b) + "\" uid"@
    } else if b.title is None {
        "Couldn't find article \""@ + spec_block_uid(b) + "\" title"@
    } else if b.date is None {
        "Couldn't find article \""@ + spec_block_uid(b) + "\" date"@
    } else {
        "Couldn't find article \""@ + spec_block_uid(b) + "\" content"@
    }
}

/// What validating one block must produce: for a complete block, a record
/// carrying the block's fields, the block's position and the extraction
/// timestamp, not yet archived; for an incomplete one, the parse error
/// naming its first missing field.
pub open spec fn outcome_matches(
    b: &ArticleBlock,
    idx: int,
    now: Seq<char>,
    r: &Result<Article, GalnetError>,
) -> bool {
    match r {
        Ok(a) => {
            &&& block_complete(b)
            &&& a.uid@ == spec_block_uid(b)
            &&& a.page_index == idx
            &&& a.title@ == b.title.unwrap()@
            &&& a.date@ == b.date.unwrap()@
            &&& a.url@ == spec_block_url(b)
            &&& a.content@ == b.content.unwrap()@
            &&& a.extraction_date@ == now
            &&& a.deprecated == false
        },
        Err(e) => {
            &&& !block_complete(b)
            &&& match e {
                GalnetError::ParserError { cause } => cause@ == spec_block_error(b),
                _ => false,
            }
        },
    }
}

/// Validates one article block, at its position within the page.
pub fn article_from_block(b: &ArticleBlock, idx: usize, now: &str) -> (r: Result<
    Article,
    GalnetError,
>)
    ensures
        outcome_matches(b, idx as int, now@, &r),
{
    let href = match &b.url {
        Some(h) => h,
        None => {
            return Err(
                GalnetError::ParserError { cause: "Couldn't find article url".to_owned() },
            );
        },
    };
    let full_url = with_site_base_url(href.as_str());
    let uid = match extract_galnet_url_uid(full_url.as_str()) {
        Some(u) => u,
        None => {
            return Err(
                GalnetError::ParserError {
                    cause: "Couldn't find article \"".to_owned().concat(full_url.as_str()).concat(
                        "\" uid",
                    ),
                },
            );
        },
    };
    let title = match &b.title {
        Some(t) => t.clone(),
        None => {
            return Err(
                GalnetError::ParserError {
                    cause: "Couldn't find article \"".to_owned().concat(uid.as_str()).concat(
                        "\" title",
                    ),
                },
            );
        },
    };
    let date = match &b.date {
        Some(d) => d.clone(),
        None => {
            return Err(
                GalnetError::ParserError {
                    cause: "Couldn't find article \"".to_owned().concat(uid.as_str()).concat(
                        "\" date",
                    ),
                },
            );
        },
    };
    let content = match &b.content {
        Some(c) => c.clone(),
        None => {
            return Err(
                GalnetError::ParserError {
                    cause: "Couldn't find article \"".to_owned().concat(uid.as_str()).concat(
                        "\" content",
                    ),
                },
            );
        },
    };
    Ok(
        Article {
            uid,
            page_index: idx,
            title,
            date,
            url: full_url,
            content,
            extraction_date: now.to_owned(),
            deprecated: false,
        },
    )
}

/// Validates every block of a page, in document order; the position of a
/// block within the page becomes its record's page position.
pub fn articles_from_blocks(blocks: &Vec<ArticleBlock>, now: &str) -> (rs: Vec<
    Result<Article, GalnetError>,
>)
    ensures
        rs@.len() == blocks@.len(),
        forall|i: int|
            0 <= i < rs@.len() ==> outcome_matches(&blocks@[i], i, now@, #[trigger] &rs@[i]),
{
    let mut rs: Vec<Result<Article, GalnetError>> = Vec::new();
    let n = blocks.len();
    let mut i: usize = 0;
    while i < n
        invariant
            0 <= i <= n,
            n == blocks@.len(),
            rs@.len() == i,
            forall|j: int|
                0 <= j < i ==> outcome_matches(&blocks@[j], j, now@, #[trigger] &rs@[j]),
        decreases n - i,
    {
        let r = article_from_block(&blocks[i], i, now);
        rs.push(r);
        i = i + 1;
    }
    rs
}

/// Partial failure isolation: within one page, a block missing its title
/// yields exactly the parse error naming that title, while a complete
/// sibling block still yields its record — one failed block never stops
/// the others.
pub proof fn lemma_partial_failure_isolation(
    missing: &ArticleBlock,
    complete: &ArticleBlock,
    i: int,
    j: int,
    now: Seq<char>,
    r_missing: &Result<Article, GalnetError>,
    r_complete: &Result<Article, GalnetError>,
)
    requires
        missing.url is Some,
        spec_extracted_uid(spec_block_url(missing)) is Some,
        missing.title is None,
        block_complete(complete),
        outcome_matches(missing, i, now, r_missing),
        outcome_matches(complete, j, now, r_complete),
    ensures
        match r_missing {
            Err(e) => match e {
                GalnetError::ParserError { cause } => cause@ == "Couldn't find article \""@
                    + spec_block_uid(missing) + "\" title"@,
                _ => false,
            },
            Ok(_) => false,
        },
        r_complete is Ok,
{
    assert(!block_complete(missing));
}

} // verus!
