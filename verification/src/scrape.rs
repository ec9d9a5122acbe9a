//! The trusted boundary to the HTML selector engine, and the crawl steps
//! built on it. The engine is a pure function of the markup and the fixed
//! selector set, so each harvest's result carries a name — an uninterpreted
//! function of the markup — and every caller's contract is stated over
//! those names; all decisions on the harvested values are verified.

use vstd::prelude::*;

use crate::article::Article;
use crate::errors::GalnetError;
use crate::extract::ArticleBlock;
use crate::extract::articles_from_blocks;
use crate::extract::outcome_matches;
use crate::page::PageExtraction;
use crate::page::build_page_extraction;
use crate::page::dedup_ok;
use crate::page::has_uid;
use crate::page::is_zero_articles_error;
use crate::page::last_with_uid;
use crate::page::spec_errs;
use crate::page::spec_oks;
use crate::page::lemma_last_with_uid_is_element;
use crate::page::lemma_oks_are_payloads;
use crate::text::opt_view;
use crate::text::opt_views;
use crate::text::trimmed;
use crate::text::trim_text;
use crate::text::unique_views;
use crate::text::views_of;
use crate::urls::links_from_hrefs;
use crate::urls::lemma_links_resolved;
use crate::urls::site_base;
use crate::urls::spec_links;
use crate::clock::now_utc_timestamp;

verus! {

/// Whether the selector engine accepts a CSS text. Selector parsing reads
/// nothing but the text, so this is a function of the text alone.
pub uninterp spec fn css_parses(css: Seq<char>) -> bool;

/// The href value of each index-link anchor of a page's markup, in document
/// order; an anchor without the attribute contributes a miss.
pub uninterp spec fn link_hrefs_of(html: Seq<char>) -> Seq<Option<Seq<char>>>;

/// The permalink href of each article block of a page's markup — the first
/// matching descendant's attribute value — in document order.
pub uninterp spec fn block_hrefs_of(html: Seq<char>) -> Seq<Option<Seq<char>>>;

/// The raw inner text of each article block's title element, in document
/// order; a block without the element contributes a miss.
pub uninterp spec fn block_titles_of(html: Seq<char>) -> Seq<Option<Seq<char>>>;

/// The raw inner text of each article block's date element, in document
/// order.
pub uninterp spec fn block_dates_of(html: Seq<char>) -> Seq<Option<Seq<char>>>;

/// The raw inner text of each article block's body element, in document
/// order.
pub uninterp spec fn block_contents_of(html: Seq<char>) -> Seq<Option<Seq<char>>>;

#[verifier::external_type_specification]
#[verifier::external_body]
pub struct ExSelector(scraper::Selector);

/// Relies on scraper's Selector::parse: a pure parser over the given text,
/// so acceptance is `css_parses` of the text; a refused text is reported by
/// its rendered error.
#[verifier::external_body]
fn parse_selector(css: &str) -> (r: Result<scraper::Selector, String>)
    ensures
        r is Ok <==> css_parses(css@),
{
    match scraper::Selector::parse(css) {
        Ok(sel) => Ok(sel),
        Err(e) => Err(e.to_string()),
    }
}

/// The selectors the crawler works with, built once at startup and passed
/// by reference wherever markup is read. The fields are private: a
/// `Selectors` value only ever arises from `Selectors::new`, so it always
/// holds this one fixed set, and what the harvests below select depends on
/// the markup alone.
pub struct Selectors {
    /// Index-page link anchors.
    date_link: scraper::Selector,
    /// Article blocks.
    article: scraper::Selector,
    /// The title element within a block.
    title: scraper::Selector,
    /// The date element within a block.
    date: scraper::Selector,
    /// The permalink element within a block.
    url: scraper::Selector,
    /// The body text elements within a block.
    content: scraper::Selector,
}

/// The engine accepts all six fixed selector texts.
pub open spec fn all_selectors_parse() -> bool {
    &&& css_parses("a.galnetLinkBoxLink"@)
    &&& css_parses(".article"@)
    &&& css_parses("h3"@)
    &&& css_parses("div > p"@)
    &&& css_parses("h3 > a"@)
    &&& css_parses(":scope > p"@)
}

impl Selectors {
    /// Builds the fixed selector set: it succeeds exactly when the engine
    /// accepts all six texts, and a refused selector is a parse failure.
    pub fn new() -> (r: Result<Selectors, GalnetError>)
        ensures
            r is Ok <==> all_selectors_parse(),
            match r {
                Ok(_) => true,
                Err(e) => e is ParserError,
            },
    {
        let date_link = match parse_selector("a.galnetLinkBoxLink") {
            Ok(s) => s,
            Err(cause) => {
                return Err(GalnetError::ParserError { cause });
            },
        };
        let article = match parse_selector(".article") {
            Ok(s) => s,
            Err(cause) => {
                return Err(GalnetError::ParserError { cause });
            },
        };
        let title = match parse_selector("h3") {
            Ok(s) => s,
            Err(cause) => {
                return Err(GalnetError::ParserError { cause });
            },
        };
        let date = match parse_selector("div > p") {
            Ok(s) => s,
            Err(cause) => {
                return Err(GalnetError::ParserError { cause });
            },
        };
        let url = match parse_selector("h3 > a") {
            Ok(s) => s,
            Err(cause) => {
                return Err(GalnetError::ParserError { cause });
            },
        };
        let content = match parse_selector(":scope > p") {
            Ok(s) => s,
            Err(cause) => {
                return Err(GalnetError::ParserError { cause });
            },
        };
        Ok(Selectors { date_link, article, title, date, url, content })
    }
}

/// Relies on scraper's Html::parse_document (never fails hard), Html::select
/// and ElementRef::attr: the href of every anchor matching the fixed
/// index-link selector, in document order — `link_hrefs_of` the markup.
#[verifier::external_body]
fn harvest_link_hrefs(html: &str, sels: &Selectors) -> (r: Vec<Option<String>>)
    ensures
        opt_views(r@) == link_hrefs_of(html@),
{
    scraper::Html::parse_document(html).select(&sels.date_link).map(
        |el| el.attr("href").map(str::to_owned),
    ).collect()
}

/// Relies on scraper's Html::parse_document, Html::select,
/// ElementRef::select and ElementRef::attr: for each article block, the
/// href of its first permalink element — `block_hrefs_of` the markup.
#[verifier::external_body]
fn harvest_block_hrefs(html: &str, sels: &Selectors) -> (r: Vec<Option<String>>)
    ensures
        opt_views(r@) == block_hrefs_of(html@),
{
    scraper::Html::parse_document(html).select(&sels.article).map(
        |el| el.select(&sels.url).next().and_then(|e| e.attr("href")).map(str::to_owned),
    ).collect()
}

/// Relies on scraper's Html::parse_document, Html::select,
/// ElementRef::select and ElementRef::text: for each article block, the
/// concatenated raw inner text of its first title element —
/// `block_titles_of` the markup, one entry per block.
#[verifier::external_body]
fn harvest_block_titles(html: &str, sels: &Selectors) -> (r: Vec<Option<String>>)
    ensures
        opt_views(r@) == block_titles_of(html@),
        r@.len() == block_hrefs_of(html@).len(),
{
    scraper::Html::parse_document(html).select(&sels.article).map(
        |el| el.select(&sels.title).next().map(|e| e.text().collect::<Vec<_>>().join("")),
    ).collect()
}

/// Relies on the same scraper functions as the title harvest: for each
/// article block, the raw inner text of its first date element —
/// `block_dates_of` the markup, one entry per block.
#[verifier::external_body]
fn harvest_block_dates(html: &str, sels: &Selectors) -> (r: Vec<Option<String>>)
    ensures
        opt_views(r@) == block_dates_of(html@),
        r@.len() == block_hrefs_of(html@).len(),
{
    scraper::Html::parse_document(html).select(&sels.article).map(
        |el| el.select(&sels.date).next().map(|e| e.text().collect::<Vec<_>>().join("")),
    ).collect()
}

/// Relies on the same scraper functions as the title harvest: for each
/// article block, the raw inner text of its first body element —
/// `block_contents_of` the markup, one entry per block.
#[verifier::external_body]
fn harvest_block_contents(html: &str, sels: &Selectors) -> (r: Vec<Option<String>>)
    ensures
        opt_views(r@) == block_contents_of(html@),
        r@.len() == block_hrefs_of(html@).len(),
{
    scraper::Html::parse_document(html).select(&sels.article).map(
        |el| el.select(&sels.content).next().map(|e| e.text().collect::<Vec<_>>().join("")),
    ).collect()
}

/// A harvested text with its whitespace removed, when it is there at all.
pub open spec fn opt_trimmed(o: Option<Seq<char>>) -> Option<Seq<char>> {
    match o {
        Some(s) => Some(trimmed(s)),
        None => None,
    }
}

/// The block handed to validation for position `i` of a page: the raw
/// permalink href, and the trimmed inner texts of the title, date and body
/// elements, each exactly as harvested from the markup.
pub open spec fn block_matches(html: Seq<char>, i: int, b: ArticleBlock) -> bool {
    &&& opt_view(b.url) == block_hrefs_of(html)[i]
    &&& opt_view(b.title) == opt_trimmed(block_titles_of(html)[i])
    &&& opt_view(b.date) == opt_trimmed(block_dates_of(html)[i])
    &&& opt_view(b.content) == opt_trimmed(block_contents_of(html)[i])
}

/// Assembles the raw fields of every article block of a page, in document
/// order, trimming the harvested texts.
fn harvest_blocks(html: &str, sels: &Selectors) -> (blocks: Vec<ArticleBlock>)
    ensures
        blocks@.len() == block_hrefs_of(html@).len(),
        forall|i: int| 0 <= i < blocks@.len() ==> block_matches(html@, i, #[trigger] blocks@[i]),
{
    let hrefs = harvest_block_hrefs(html, sels);
    let titles = harvest_block_titles(html, sels);
    let dates = harvest_block_dates(html, sels);
    let contents = harvest_block_contents(html, sels);
    let n = hrefs.len();
    let mut blocks: Vec<ArticleBlock> = Vec::new();
    let mut i: usize = 0;
    while i < n
        invariant
            0 <= i <= n,
            n == hrefs@.len(),
            n == titles@.len(),
            n == dates@.len(),
            n == contents@.len(),
            opt_views(hrefs@) == block_hrefs_of(html@),
            opt_views(titles@) == block_titles_of(html@),
            opt_views(dates@) == block_dates_of(html@),
            opt_views(contents@) == block_contents_of(html@),
            blocks@.len() == i,
            forall|j: int| 0 <= j < i ==> block_matches(html@, j, #[trigger] blocks@[j]),
        decreases n - i,
    {
        let url = match &hrefs[i] {
            Some(s) => Some(s.clone()),
            None => None,
        };
        let title = match &titles[i] {
            Some(s) => Some(trim_text(s.as_str())),
            None => None,
        };
        let date = match &dates[i] {
            Some(s) => Some(trim_text(s.as_str())),
            None => None,
        };
        let content = match &contents[i] {
            Some(s) => Some(trim_text(s.as_str())),
            None => None,
        };
        let b = ArticleBlock { url, title, date, content };
        proof {
            assert(opt_views(hrefs@)[i as int] == opt_view(hrefs@[i as int]));
            assert(opt_views(titles@)[i as int] == opt_view(titles@[i as int]));
            assert(opt_views(dates@)[i as int] == opt_view(dates@[i as int]));
            assert(opt_views(contents@)[i as int] == opt_view(contents@[i as int]));
            assert(block_matches(html@, i as int, b));
        }
        blocks.push(b);
        i = i + 1;
    }
    blocks
}

/// Discovers the index links of a page: every anchor's harvested href,
/// trimmed and resolved against the site root, first occurrence kept.
pub fn extract_date_links(html: &str, sels: &Selectors) -> (r: Vec<String>)
    ensures
        views_of(r@) == spec_links(link_hrefs_of(html@)),
        unique_views(views_of(r@)),
        forall|i: int|
            0 <= i < r@.len() ==> (#[trigger] r@[i])@.len() >= site_base().len() && r@[i]@.subrange(
                0,
                site_base().len() as int,
            ) == site_base(),
{
    let hrefs = harvest_link_hrefs(html, sels);
    let r = links_from_hrefs(&hrefs);
    proof {
        assert forall|i: int| 0 <= i < r@.len() implies (#[trigger] r@[i])@.len()
            >= site_base().len() && r@[i]@.subrange(0, site_base().len() as int)
            == site_base() by {
            assert(views_of(r@)[i] == r@[i]@);
            lemma_links_resolved(link_hrefs_of(html@), i);
        }
    }
    r
}

/// The validation outcome owed at position `i` of a page: the result is
/// the outcome of the block whose fields were harvested at `i`.
pub open spec fn outcome_at(
    html: Seq<char>,
    i: int,
    now: Seq<char>,
    r: &Result<Article, GalnetError>,
) -> bool {
    exists|b: ArticleBlock| #[trigger] block_matches(html, i, b) && outcome_matches(&b, i, now, r)
}

/// Extracts every article block of a page in document order: one result per
/// harvested block, each the validation outcome of that block's fields,
/// stamped with the given extraction instant.
pub fn extract_articles(html: &str, sels: &Selectors, now: &str) -> (rs: Vec<
    Result<Article, GalnetError>,
>)
    ensures
        rs@.len() == block_hrefs_of(html@).len(),
        forall|i: int| 0 <= i < rs@.len() ==> outcome_at(html@, i, now@, #[trigger] &rs@[i]),
        forall|i: int|
            0 <= i < rs@.len() ==> match #[trigger] rs@[i] {
                Ok(a) => {
                    &&& a.page_index == i
                    &&& a.extraction_date@ == now@
                    &&& a.deprecated == false
                    &&& crate::urls::spec_extracted_uid(a.url@) == Some(a.uid@)
                },
                Err(e) => e is ParserError,
            },
{
    let blocks = harvest_blocks(html, sels);
    let rs = articles_from_blocks(&blocks, now);
    proof {
        assert forall|i: int| 0 <= i < rs@.len() implies outcome_at(html@, i, now@, &rs@[i]) by {
            assert(block_matches(html@, i, blocks@[i]));
            assert(outcome_matches(&blocks@[i], i, now@, &rs@[i]));
        }
    }
    rs
}

/// A page extraction assembled from fetched markup: per-block validation
/// results `rs` — one per harvested block, stamped with one extraction
/// instant `now` — collapsed into the page's articles and errors exactly as
/// `split_results` and `build_page_extraction` state.
pub open spec fn assembled_from(
    p: &PageExtraction,
    html: Seq<char>,
    rs: Seq<Result<Article, GalnetError>>,
    now: Seq<char>,
) -> bool {
    &&& rs.len() == block_hrefs_of(html).len()
    &&& (forall|i: int| 0 <= i < rs.len() ==> outcome_at(html, i, now, #[trigger] &rs[i]))
    &&& dedup_ok(p.articles@, rs)
    &&& (spec_oks(rs).len() > 0 ==> p.articles@.len() > 0 && p.errors@ == spec_errs(rs))
    &&& (spec_oks(rs).len() == 0 ==> {
        &&& p.articles@.len() == 0
        &&& p.errors@.len() == spec_errs(rs).len() + 1
        &&& p.errors@.subrange(0, spec_errs(rs).len() as int) == spec_errs(rs)
        &&& is_zero_articles_error(&p.errors@.last(), p.url@, html)
    })
}

/// Crawls one page from its fetch outcome. Fetched markup yields the
/// discovered links and a page assembled from the markup's blocks — the
/// surviving records unique by uid, a page none of whose blocks survived
/// gaining the one page-level error, so a page without errors always
/// carries articles. A fetch failure yields no articles, no links, and
/// exactly that scrape error.
pub fn extract_page(url: &str, fetched: Result<String, String>, sels: &Selectors) -> (p:
    PageExtraction)
    ensures
        p.url@ == url@,
        match fetched {
            Ok(h) => {
                &&& views_of(p.links@) == spec_links(link_hrefs_of(h@))
                &&& exists|rs: Seq<Result<Article, GalnetError>>, now: Seq<char>|
                    assembled_from(&p, h@, rs, now)
                &&& forall|i: int, j: int|
                    0 <= i < j < p.articles@.len() ==> (#[trigger] p.articles@[i]).uid@ != (
                    #[trigger] p.articles@[j]).uid@
                &&& unique_views(views_of(p.links@))
                &&& (p.errors@.len() == 0 ==> p.articles@.len() > 0)
                &&& forall|i: int|
                    0 <= i < p.articles@.len() ==> (#[trigger] p.articles@[i]).deprecated == false
                        && crate::urls::spec_extracted_uid(p.articles@[i].url@) == Some(
                        p.articles@[i].uid@,
                    )
            },
            Err(cause) => {
                &&& p.articles@.len() == 0
                &&& p.links@.len() == 0
                &&& p.errors@.len() == 1
                &&& match p.errors@[0] {
                    GalnetError::ScraperError { url: u, cause: c } => u@ == url@ && c@ == cause@,
                    _ => false,
                }
            },
        },
{
    match fetched {
        Ok(html) => {
            let links = extract_date_links(html.as_str(), sels);
            let now = now_utc_timestamp();
            let blocks = harvest_blocks(html.as_str(), sels);
            let results = articles_from_blocks(&blocks, now.as_str());
            let ghost blocks_g = blocks@;
            let ghost results_g = results@;
            let p = build_page_extraction(url, html.as_str(), links, results);
            proof {
                assert(dedup_ok(p.articles@, results_g));
                assert forall|i: int| 0 <= i < p.articles@.len() implies (
                #[trigger] p.articles@[i]).deprecated == false && crate::urls::spec_extracted_uid(
                    p.articles@[i].url@,
                ) == Some(p.articles@[i].uid@) by {
                    let a = p.articles@[i];
                    assert(has_uid(spec_oks(results_g), a.uid@));
                    assert(a == last_with_uid(spec_oks(results_g), a.uid@));
                    lemma_last_with_uid_is_element(spec_oks(results_g), a.uid@);
                    let k = choose|k: int|
                        0 <= k < spec_oks(results_g).len() && #[trigger] spec_oks(results_g)[k]
                            == a;
                    lemma_oks_are_payloads(results_g, k);
                    let idx = choose|idx: int|
                        0 <= idx < results_g.len() && #[trigger] results_g[idx] == Ok::<
                            Article,
                            GalnetError,
                        >(a);
                    assert(outcome_matches(&blocks_g[idx], idx, now@, &results_g[idx]));
                }
                assert forall|i: int| 0 <= i < results_g.len() implies outcome_at(
                    html@,
                    i,
                    now@,
                    #[trigger] &results_g[i],
                ) by {
                    assert(block_matches(html@, i, blocks_g[i]));
                    assert(outcome_matches(&blocks_g[i], i, now@, &results_g[i]));
                }
                assert(assembled_from(&p, html@, results_g, now@));
                assert(exists|rs: Seq<Result<Article, GalnetError>>, nv: Seq<char>|
                    assembled_from(&p, html@, rs, nv));
            }
            p
        },
        Err(cause) => {
            let mut errors: Vec<GalnetError> = Vec::new();
            errors.push(GalnetError::ScraperError { url: url.to_owned(), cause });
            PageExtraction {
                url: url.to_owned(),
                articles: Vec::new(),
                links: Vec::new(),
                errors,
            }
        },
    }
}

} // verus!
