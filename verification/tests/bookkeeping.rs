use galnet::article::Article;
use galnet::errors::GalnetError;
use galnet::orchestrate::links_to_crawl;
use galnet::orchestrate::reconcile;
use galnet::orchestrate::sort_errored_pages;
use galnet::orchestrate::sort_strings;
use galnet::page::PageExtraction;
use galnet::persist::errored_page;
use galnet::persist::downloaded_pages_file;
use galnet::persist::extracted_files_location;
use galnet::persist::failed_pages_file;
use galnet::persist::list_downloaded_pages;
use galnet::persist::plan_persist;
use galnet::persist::ErroredPage;
use galnet::persist::PersistPlan;

fn article(uid: &str, content: &str) -> Article {
    Article {
        uid: uid.to_string(),
        page_index: 0,
        title: "Title".to_string(),
        date: "07 SEP 3301".to_string(),
        url: format!("https://community.elitedangerous.com/galnet/uid/{}", uid),
        content: content.to_string(),
        extraction_date: "3301-09-07T00:00:00Z".to_string(),
        deprecated: false,
    }
}

fn page(url: &str, errors: Vec<GalnetError>) -> PageExtraction {
    PageExtraction { url: url.to_string(), articles: Vec::new(), links: Vec::new(), errors }
}

#[test]
fn new_article_is_written() {
    match plan_persist(None, &article("a", "body")) {
        PersistPlan::WriteNew => {},
        _ => panic!("expected a fresh write"),
    }
}

#[test]
fn unchanged_article_is_skipped() {
    let prev = article("a", "body");
    let mut incoming = article("a", "body");
    incoming.extraction_date = "3302-01-01T00:00:00Z".to_string();
    match plan_persist(Some(prev), &incoming) {
        PersistPlan::Skip => {},
        _ => panic!("an unchanged article must not touch storage"),
    }
}

#[test]
fn changed_article_archives_old_version() {
    let prev = article("a", "old body");
    let incoming = article("a", "new body");
    match plan_persist(Some(prev), &incoming) {
        PersistPlan::ArchiveThenWrite { archived } => {
            assert!(archived.deprecated);
            assert_eq!(archived.content, "old body");
            assert_eq!(archived.extraction_date, "3301-09-07T00:00:00Z");
        },
        _ => panic!("a changed article must archive the previous version"),
    }
}

#[test]
fn crawl_delta_excludes_downloaded() {
    let all = vec!["a".to_string(), "b".to_string(), "c".to_string()];
    let downloaded = vec!["b".to_string()];
    assert_eq!(links_to_crawl(&all, &downloaded), vec!["a".to_string(), "c".to_string()]);
}

#[test]
fn crawl_delta_empty_when_all_downloaded() {
    let all = vec!["a".to_string(), "b".to_string()];
    let downloaded = vec!["b".to_string(), "a".to_string()];
    assert_eq!(links_to_crawl(&all, &downloaded), Vec::<String>::new());
}

#[test]
fn missing_bookkeeping_file_means_empty_set() {
    assert_eq!(list_downloaded_pages(None), Vec::<String>::new());
}

#[test]
fn loaded_bookkeeping_collapses_repeats() {
    let loaded = vec!["a".to_string(), "b".to_string(), "a".to_string()];
    assert_eq!(
        list_downloaded_pages(Some(loaded)),
        vec!["a".to_string(), "b".to_string()]
    );
}

#[test]
fn errored_page_renders_error_texts() {
    let errors = vec![GalnetError::ParserError { cause: "x".to_string() }];
    let e = errored_page("u", &errors);
    assert_eq!(e.url, "u");
    assert_eq!(e.errors, vec!["Error while parsing: x".to_string()]);
}

#[test]
fn three_pages_reconcile() {
    // A is already downloaded and not re-crawled; B was failing and now
    // succeeds; C is newly discovered and fails.
    let downloaded = vec!["A".to_string()];
    let failed = vec![ErroredPage { url: "B".to_string(), errors: vec!["old".to_string()] }];
    let pages = vec![
        page("B", Vec::new()),
        page("C", vec![GalnetError::ParserError { cause: "boom".to_string() }]),
    ];
    let (new_downloaded, new_failed) = reconcile(downloaded, failed, &pages);
    let mut d = new_downloaded.clone();
    d.sort();
    assert_eq!(d, vec!["A".to_string(), "B".to_string()]);
    assert_eq!(new_failed.len(), 1);
    assert_eq!(new_failed[0].url, "C");
    assert_eq!(new_failed[0].errors, vec!["Error while parsing: boom".to_string()]);
}

#[test]
fn success_never_demotes_other_pages() {
    let downloaded = vec!["A".to_string()];
    let failed = Vec::new();
    let pages = vec![page("D", vec![GalnetError::ParserError { cause: "e".to_string() }])];
    let (new_downloaded, new_failed) = reconcile(downloaded, failed, &pages);
    assert_eq!(new_downloaded, vec!["A".to_string()]);
    assert_eq!(new_failed.len(), 1);
    assert_eq!(new_failed[0].url, "D");
}

#[test]
fn empty_run_changes_nothing() {
    let downloaded = vec!["A".to_string()];
    let failed = vec![ErroredPage { url: "B".to_string(), errors: vec!["old".to_string()] }];
    let (new_downloaded, new_failed) = reconcile(downloaded, failed, &Vec::new());
    assert_eq!(new_downloaded, vec!["A".to_string()]);
    assert_eq!(new_failed.len(), 1);
    assert_eq!(new_failed[0].url, "B");
    assert_eq!(new_failed[0].errors, vec!["old".to_string()]);
}

#[test]
fn failing_page_entry_is_overwritten() {
    let failed = vec![ErroredPage { url: "B".to_string(), errors: vec!["old".to_string()] }];
    let pages = vec![page("B", vec![GalnetError::ParserError { cause: "new".to_string() }])];
    let (_, new_failed) = reconcile(Vec::new(), failed, &pages);
    assert_eq!(new_failed.len(), 1);
    assert_eq!(new_failed[0].url, "B");
    assert_eq!(new_failed[0].errors, vec!["Error while parsing: new".to_string()]);
}

#[test]
fn sorts_pages_for_output() {
    let v = vec!["b".to_string(), "a".to_string(), "c".to_string()];
    assert_eq!(
        sort_strings(v),
        vec!["a".to_string(), "b".to_string(), "c".to_string()]
    );
}

#[test]
fn sorts_failed_entries_by_url() {
    let v = vec![
        ErroredPage { url: "z".to_string(), errors: Vec::new() },
        ErroredPage { url: "a".to_string(), errors: Vec::new() },
    ];
    let sorted = sort_errored_pages(v);
    assert_eq!(sorted[0].url, "a");
    assert_eq!(sorted[1].url, "z");
}

#[test]
fn bookkeeping_paths_are_fixed() {
    assert_eq!(downloaded_pages_file(), "./galnet/successful-pages.json");
    assert_eq!(failed_pages_file(), "./galnet/failed-pages.json");
    assert_eq!(extracted_files_location(), "./galnet/files");
}

#[test]
fn finalize_sorts_both_collections() {
    let downloaded = vec!["z".to_string(), "m".to_string()];
    let failed = Vec::new();
    let pages = vec![
        page("a", Vec::new()),
        page("y", vec![GalnetError::ParserError { cause: "e1".to_string() }]),
        page("b", vec![GalnetError::ParserError { cause: "e2".to_string() }]),
    ];
    let (new_downloaded, new_failed) =
        galnet::orchestrate::finalize_bookkeeping(downloaded, failed, &pages);
    assert_eq!(
        new_downloaded,
        vec!["a".to_string(), "m".to_string(), "z".to_string()]
    );
    assert_eq!(new_failed.len(), 2);
    assert_eq!(new_failed[0].url, "b");
    assert_eq!(new_failed[1].url, "y");
}
