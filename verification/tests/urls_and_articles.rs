use galnet::article::gen_archive_filename;
use galnet::article::gen_article_filename;
use galnet::article::Article;
use galnet::errors::GalnetError;
use galnet::urls::extract_galnet_url_uid;
use galnet::urls::links_from_hrefs;
use galnet::urls::with_site_base_url;

fn sample_article() -> Article {
    Article {
        uid: "abc123".to_string(),
        page_index: 2,
        title: "Title".to_string(),
        date: "07 SEP 3301".to_string(),
        url: "https://community.elitedangerous.com/galnet/uid/abc123".to_string(),
        content: "Body".to_string(),
        extraction_date: "3301-09-07T00:00:00Z".to_string(),
        deprecated: false,
    }
}

#[test]
fn prefixes_site_base() {
    assert_eq!(
        with_site_base_url("/galnet/uid/x"),
        "https://community.elitedangerous.com/galnet/uid/x"
    );
}

#[test]
fn extracts_uid_token() {
    assert_eq!(
        extract_galnet_url_uid("https://community.elitedangerous.com/galnet/uid/abc123"),
        Some("abc123".to_string())
    );
}

#[test]
fn uid_stops_at_delimiters() {
    assert_eq!(extract_galnet_url_uid("/uid/abc/def"), Some("abc".to_string()));
    assert_eq!(extract_galnet_url_uid("/uid/abc#frag"), Some("abc".to_string()));
    assert_eq!(extract_galnet_url_uid("/uid/abc?x=1"), Some("abc".to_string()));
}

#[test]
fn uid_needs_token_after_marker() {
    assert_eq!(extract_galnet_url_uid("/uid/"), None);
    assert_eq!(extract_galnet_url_uid("/uid//uid/abc"), Some("abc".to_string()));
    assert_eq!(extract_galnet_url_uid("https://example.com/galnet/page"), None);
}

#[test]
fn resolves_and_deduplicates_hrefs() {
    let hrefs = vec![
        Some(" /a ".to_string()),
        None,
        Some("/b".to_string()),
        Some("/a".to_string()),
    ];
    let links = links_from_hrefs(&hrefs);
    assert_eq!(
        links,
        vec![
            "https://community.elitedangerous.com/a".to_string(),
            "https://community.elitedangerous.com/b".to_string(),
        ]
    );
}

#[test]
fn article_filename_is_deterministic() {
    let a = sample_article();
    assert_eq!(
        gen_article_filename(&a),
        "./galnet/files/3301 SEP 07 - 2 - abc123.json"
    );
}

#[test]
fn archive_filename_appends_stamp() {
    assert_eq!(
        gen_archive_filename("./galnet/files/x.json", "3301-09-08T01-02-03Z"),
        "./galnet/files/x.json - 3301-09-08T01-02-03Z"
    );
}

#[test]
fn content_equality_ignores_extraction_date_and_mark() {
    let a = sample_article();
    let mut b = sample_article();
    b.extraction_date = "3302-01-01T00:00:00Z".to_string();
    b.deprecated = true;
    assert!(a == b);
    let mut c = sample_article();
    c.content = "Changed".to_string();
    assert!(a != c);
}

#[test]
fn file_error_renders_filename_and_cause() {
    let e = GalnetError::FileError {
        filename: "./galnet/files/x.json".to_string(),
        cause: "denied".to_string(),
    };
    assert_eq!(
        e.to_string(),
        "Error while scraping from \"./galnet/files/x.json\": denied"
    );
}

#[test]
fn parser_error_renders_cause() {
    let e = GalnetError::ParserError { cause: "Couldn't find article url".to_string() };
    assert_eq!(e.to_string(), "Error while parsing: Couldn't find article url");
}

#[test]
fn scraper_error_renders_url_and_cause() {
    let e = GalnetError::ScraperError {
        url: "https://community.elitedangerous.com/x".to_string(),
        cause: "timeout".to_string(),
    };
    assert_eq!(
        e.to_string(),
        "Error while scraping from \"https://community.elitedangerous.com/x\": timeout"
    );
}
