use crawler::page::{discovered_urls, extract_urls};
use crawler::urls::{build_absolute_url, CrawlUrl};

#[test]
fn test_basic() {
    let html = r#"
<html>
    <head>
        <title>HTML!</title>
    </head>
    <body>
        <h1>HTML</h1>
        <a href="/foo">Go</a>
        <a href="https://example.com/bar>Go absolute</a>
    </body>
</html>
"#;

    let mut expected = vec!["/foo", "https://example.com/bar"];
    let mut urls: Vec<String> = extract_urls(html);
    assert_eq!(urls.sort(), expected.sort());
}

#[test]
fn test_extract_urls_in_document_order() {
    let html = r#"<a href="/one">1</a><p>text</p><a href="/two">2</a><a>no href</a>"#;
    assert_eq!(extract_urls(html), vec!["/one", "/two"]);
}

#[test]
fn test_parse_normalizes() {
    let u = CrawlUrl::parse("https://example.com").unwrap();
    assert_eq!(u.text(), "https://example.com/");
    assert_eq!(u.scheme(), "https");
    assert_eq!(u.host().as_deref(), Some("example.com"));
    assert_eq!(u.port(), None);
    assert_eq!(u.key(), "/");

    let with_port = CrawlUrl::parse("http://example.com:8080/x").unwrap();
    assert_eq!(with_port.port(), Some(8080));
    assert_eq!(with_port.scheme(), "http");

    // A default port is never part of the authority's serialization.
    let default_port = CrawlUrl::parse("https://example.com:443/").unwrap();
    assert_eq!(default_port.port(), None);
    assert_eq!(default_port.text(), "https://example.com/");

    let v = CrawlUrl::parse("https://example.com/a?q=1#frag").unwrap();
    assert_eq!(v.key(), "/a?q=1#frag");

    assert!(CrawlUrl::parse("abc").is_none());
    assert!(CrawlUrl::parse("/relative/only").is_none());
}

#[test]
fn test_build_absolute_url() {
    let domain = CrawlUrl::parse("https://example.com").unwrap();

    let rel = build_absolute_url(&domain, "/foo").unwrap();
    assert_eq!(rel.text(), "https://example.com/foo");

    let abs = build_absolute_url(&domain, "https://other.example/bar").unwrap();
    assert_eq!(abs.text(), "https://other.example/bar");
    assert_eq!(abs.host().as_deref(), Some("other.example"));

    assert!(build_absolute_url(&domain, "http://[bad").is_none());
}

#[test]
fn test_discovered_urls_resolves_and_drops_malformed() {
    let domain = CrawlUrl::parse("https://example.com").unwrap();
    let html = r#"
        <a href="/foo">foo</a>
        <a href="https://b.example/x">away</a>
        <a href="http://[bad">broken</a>
    "#;

    let found = discovered_urls(&domain, html);
    let texts: Vec<&String> = found.iter().map(|u| u.text()).collect();
    assert_eq!(
        texts,
        vec!["https://example.com/foo", "https://b.example/x"]
    );
}
