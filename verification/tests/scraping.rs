use galnet::errors::GalnetError;
use galnet::clock::now_utc_timestamp;
use galnet::scrape::extract_date_links;
use galnet::scrape::extract_page;
use galnet::scrape::Selectors;

fn selectors() -> Selectors {
    match Selectors::new() {
        Ok(s) => s,
        Err(_) => panic!("the fixed selector set must build"),
    }
}

fn article_block(uid: &str, title: &str, date: &str, body: &str) -> String {
    format!(
        "<div class=\"article\"><h3><a href=\"/galnet/uid/{}\">{}</a></h3><div><p>{}</p></div><p>{}</p></div>",
        uid, title, date, body
    )
}

#[test]
fn selectors_build() {
    selectors();
}

#[test]
fn page_with_two_articles_extracts_both() {
    let html = format!(
        "<html><body>{}{}</body></html>",
        article_block("one", "First Title", "07 SEP 3301", "First body"),
        article_block("two", "Second Title", "08 SEP 3301", "Second body"),
    );
    let sels = selectors();
    let p = extract_page("https://community.elitedangerous.com/galnet/07-sep-3301", Ok(html), &sels);
    assert_eq!(p.url, "https://community.elitedangerous.com/galnet/07-sep-3301");
    assert_eq!(p.errors.len(), 0);
    assert_eq!(p.articles.len(), 2);
    let first = p.articles.iter().find(|a| a.uid == "one").expect("first article");
    assert_eq!(first.title, "First Title");
    assert_eq!(first.date, "07 SEP 3301");
    assert_eq!(first.content, "First body");
    assert_eq!(first.url, "https://community.elitedangerous.com/galnet/uid/one");
    assert!(!first.deprecated);
    let second = p.articles.iter().find(|a| a.uid == "two").expect("second article");
    assert_eq!(second.title, "Second Title");
}

#[test]
fn element_text_is_concatenated_and_trimmed() {
    // The title element holds nested markup and surrounding whitespace; the
    // extracted title must be the concatenated inner text, trimmed.
    let html = "<html><body><div class=\"article\">\
        <h3> <a href=\"/galnet/uid/x\">A <em>nested</em> title </a></h3>\
        <div><p> 07 SEP 3301 </p></div><p> body </p></div></body></html>";
    let sels = selectors();
    let p = extract_page("u", Ok(html.to_string()), &sels);
    assert_eq!(p.errors.len(), 0);
    assert_eq!(p.articles.len(), 1);
    assert_eq!(p.articles[0].title, "A nested title");
    assert_eq!(p.articles[0].date, "07 SEP 3301");
    assert_eq!(p.articles[0].content, "body");
}

#[test]
fn block_missing_permalink_spares_siblings() {
    let broken = "<div class=\"article\"><div><p>07 SEP 3301</p></div><p>body</p></div>";
    let html = format!(
        "<html><body>{}{}</body></html>",
        broken,
        article_block("ok", "Fine", "07 SEP 3301", "body"),
    );
    let sels = selectors();
    let p = extract_page("u", Ok(html), &sels);
    assert_eq!(p.articles.len(), 1);
    assert_eq!(p.articles[0].uid, "ok");
    assert_eq!(p.errors.len(), 1);
    match &p.errors[0] {
        GalnetError::ParserError { cause } => {
            assert_eq!(cause, "Couldn't find article url");
        },
        _ => panic!("expected a parse error"),
    }
}

#[test]
fn page_without_articles_reports_one_error() {
    let html = "<html><body><p>Nothing here</p></body></html>";
    let sels = selectors();
    let p = extract_page("https://site/empty", Ok(html.to_string()), &sels);
    assert_eq!(p.articles.len(), 0);
    assert_eq!(p.errors.len(), 1);
    match &p.errors[0] {
        GalnetError::ScraperError { url, cause } => {
            assert_eq!(url, "https://site/empty");
            assert!(cause.starts_with(
                "Error while parsing: Could not find any article for this page:\n"
            ));
        },
        _ => panic!("expected a page-level scrape error"),
    }
}

#[test]
fn duplicate_uid_on_page_collapses() {
    let html = format!(
        "<html><body>{}{}</body></html>",
        article_block("same", "First", "07 SEP 3301", "body one"),
        article_block("same", "Second", "07 SEP 3301", "body two"),
    );
    let sels = selectors();
    let p = extract_page("u", Ok(html), &sels);
    assert_eq!(p.errors.len(), 0);
    assert_eq!(p.articles.len(), 1);
    assert_eq!(p.articles[0].title, "Second");
    assert_eq!(p.articles[0].page_index, 1);
}

#[test]
fn fetch_failure_is_the_only_error() {
    let sels = selectors();
    let p = extract_page("https://site/x", Err("connection refused".to_string()), &sels);
    assert_eq!(p.articles.len(), 0);
    assert_eq!(p.links.len(), 0);
    assert_eq!(p.errors.len(), 1);
    match &p.errors[0] {
        GalnetError::ScraperError { url, cause } => {
            assert_eq!(url, "https://site/x");
            assert_eq!(cause, "connection refused");
        },
        _ => panic!("expected a scrape error"),
    }
}

#[test]
fn discovers_and_resolves_index_links() {
    let html = "<html><body>\
        <a class=\"galnetLinkBoxLink\" href=\" /galnet/01-jan-3301 \">01 JAN 3301</a>\
        <a class=\"galnetLinkBoxLink\" href=\"/galnet/02-jan-3301\">02 JAN 3301</a>\
        <a class=\"galnetLinkBoxLink\" href=\"/galnet/01-jan-3301\">repeat</a>\
        <a href=\"/other\">unrelated</a>\
        </body></html>";
    let sels = selectors();
    let links = extract_date_links(html, &sels);
    assert_eq!(
        links,
        vec![
            "https://community.elitedangerous.com/galnet/01-jan-3301".to_string(),
            "https://community.elitedangerous.com/galnet/02-jan-3301".to_string(),
        ]
    );
}

#[test]
fn extraction_timestamp_has_second_precision_shape() {
    let t = now_utc_timestamp();
    let b = t.as_bytes();
    assert_eq!(b.len(), 20);
    assert_eq!(b[4], b'-');
    assert_eq!(b[7], b'-');
    assert_eq!(b[10], b'T');
    assert_eq!(b[13], b':');
    assert_eq!(b[16], b':');
    assert_eq!(b[19], b'Z');
}

#[test]
fn extract_articles_orders_and_stamps_blocks() {
    let html = format!(
        "<html><body>{}{}</body></html>",
        article_block("a1", "T1", "07 SEP 3301", "B1"),
        article_block("a2", "T2", "08 SEP 3301", "B2"),
    );
    let sels = selectors();
    let rs = galnet::scrape::extract_articles(&html, &sels, "3301-09-08T12:00:00Z");
    assert_eq!(rs.len(), 2);
    match &rs[0] {
        Ok(a) => {
            assert_eq!(a.uid, "a1");
            assert_eq!(a.page_index, 0);
            assert_eq!(a.extraction_date, "3301-09-08T12:00:00Z");
        },
        Err(_) => panic!("expected an article"),
    }
    match &rs[1] {
        Ok(a) => {
            assert_eq!(a.uid, "a2");
            assert_eq!(a.page_index, 1);
        },
        Err(_) => panic!("expected an article"),
    }
}
