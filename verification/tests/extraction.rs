use galnet::article::Article;
use galnet::errors::GalnetError;
use galnet::extract::article_from_block;
use galnet::extract::articles_from_blocks;
use galnet::extract::ArticleBlock;
use galnet::page::build_page_extraction;
use galnet::page::split_results;

fn complete_block(href: &str, title: &str) -> ArticleBlock {
    ArticleBlock {
        url: Some(href.to_string()),
        title: Some(title.to_string()),
        date: Some("07 SEP 3301".to_string()),
        content: Some("Body".to_string()),
    }
}

#[test]
fn complete_block_yields_article() {
    let b = complete_block("/galnet/uid/abc", "Title One");
    let r = article_from_block(&b, 3, "3301-09-07T00:00:00Z");
    match r {
        Ok(a) => {
            assert_eq!(a.uid, "abc");
            assert_eq!(a.page_index, 3);
            assert_eq!(a.title, "Title One");
            assert_eq!(a.date, "07 SEP 3301");
            assert_eq!(a.url, "https://community.elitedangerous.com/galnet/uid/abc");
            assert_eq!(a.content, "Body");
            assert_eq!(a.extraction_date, "3301-09-07T00:00:00Z");
            assert!(!a.deprecated);
        },
        Err(_) => panic!("expected an article"),
    }
}

#[test]
fn missing_permalink_is_named() {
    let mut b = complete_block("/galnet/uid/abc", "T");
    b.url = None;
    match article_from_block(&b, 0, "now") {
        Err(GalnetError::ParserError { cause }) => {
            assert_eq!(cause, "Couldn't find article url");
        },
        _ => panic!("expected a parse error"),
    }
}

#[test]
fn missing_uid_is_named_with_url() {
    let b = complete_block("/galnet/page-without-token", "T");
    match article_from_block(&b, 0, "now") {
        Err(GalnetError::ParserError { cause }) => {
            assert_eq!(
                cause,
                "Couldn't find article \"https://community.elitedangerous.com/galnet/page-without-token\" uid"
            );
        },
        _ => panic!("expected a parse error"),
    }
}

#[test]
fn missing_title_is_named_with_uid() {
    let mut b = complete_block("/galnet/uid/abc", "T");
    b.title = None;
    match article_from_block(&b, 0, "now") {
        Err(GalnetError::ParserError { cause }) => {
            assert_eq!(cause, "Couldn't find article \"abc\" title");
        },
        _ => panic!("expected a parse error"),
    }
}

#[test]
fn missing_date_and_content_are_named() {
    let mut b = complete_block("/galnet/uid/abc", "T");
    b.date = None;
    match article_from_block(&b, 0, "now") {
        Err(GalnetError::ParserError { cause }) => {
            assert_eq!(cause, "Couldn't find article \"abc\" date");
        },
        _ => panic!("expected a parse error"),
    }
    let mut b = complete_block("/galnet/uid/abc", "T");
    b.content = None;
    match article_from_block(&b, 0, "now") {
        Err(GalnetError::ParserError { cause }) => {
            assert_eq!(cause, "Couldn't find article \"abc\" content");
        },
        _ => panic!("expected a parse error"),
    }
}

#[test]
fn one_bad_block_spares_its_siblings() {
    let mut bad = complete_block("/galnet/uid/two", "T2");
    bad.title = None;
    let blocks = vec![
        complete_block("/galnet/uid/one", "T1"),
        bad,
        complete_block("/galnet/uid/three", "T3"),
    ];
    let rs = articles_from_blocks(&blocks, "now");
    assert_eq!(rs.len(), 3);
    assert!(rs[0].is_ok());
    assert!(rs[1].is_err());
    assert!(rs[2].is_ok());
    let (articles, errors) = split_results(rs);
    assert_eq!(articles.len(), 2);
    assert_eq!(errors.len(), 1);
}

#[test]
fn duplicate_uid_collapses_to_last_block() {
    let blocks = vec![
        complete_block("/galnet/uid/same", "First"),
        complete_block("/galnet/uid/other", "Other"),
        complete_block("/galnet/uid/same", "Second"),
    ];
    let rs = articles_from_blocks(&blocks, "now");
    let (articles, errors) = split_results(rs);
    assert_eq!(errors.len(), 0);
    assert_eq!(articles.len(), 2);
    let same: Vec<&Article> = articles.iter().filter(|a| a.uid == "same").collect();
    assert_eq!(same.len(), 1);
    assert_eq!(same[0].title, "Second");
    assert_eq!(same[0].page_index, 2);
}

#[test]
fn zero_articles_page_gets_one_parser_error() {
    let p = build_page_extraction("https://site/page", "<html></html>", Vec::new(), Vec::new());
    assert_eq!(p.url, "https://site/page");
    assert_eq!(p.articles.len(), 0);
    assert_eq!(p.errors.len(), 1);
    match &p.errors[0] {
        GalnetError::ScraperError { url, cause } => {
            assert_eq!(url, "https://site/page");
            assert_eq!(
                cause,
                "Error while parsing: Could not find any article for this page:\n<html></html>"
            );
        },
        _ => panic!("expected a page-level scrape error"),
    }
}

#[test]
fn page_with_articles_keeps_only_block_errors() {
    let blocks = vec![complete_block("/galnet/uid/abc", "T")];
    let rs = articles_from_blocks(&blocks, "now");
    let p = build_page_extraction("u", "<html></html>", Vec::new(), rs);
    assert_eq!(p.articles.len(), 1);
    assert_eq!(p.errors.len(), 0);
}
