use crawler::db::{Db, DbError};
use crawler::urls::{join_url, CrawlUrl};

fn url(base: &CrawlUrl, path: &str) -> CrawlUrl {
    join_url(base, path).unwrap()
}

fn texts(urls: &[CrawlUrl]) -> Vec<String> {
    urls.iter().map(|u| u.text().clone()).collect()
}

fn compare_sorted(mut first: Vec<String>, mut second: Vec<String>) {
    first.sort();
    second.sort();

    assert_eq!(first, second)
}

#[test]
fn test_unique_urls_list_for_domain() {
    let mut db = Db::default();
    let domain_one = CrawlUrl::parse("https://example.com").unwrap();
    let domain_two = CrawlUrl::parse("https://foobar.com").unwrap();

    assert!(db.is_first_visit(&url(&domain_one, "/foo/test/1")).unwrap());

    db.visit(&url(&domain_one, "/foo/test/1")).unwrap();

    assert_eq!(
        db.is_first_visit(&url(&domain_one, "/foo/test/1")).unwrap(),
        false
    );

    db.visit(&url(&domain_one, "/foo/test/1")).unwrap();
    db.visit(&url(&domain_one, "/bar/test/1")).unwrap();
    db.visit(&url(&domain_one, "/bar/test/1")).unwrap();
    db.visit(&url(&domain_one, "/bar/test/1")).unwrap();

    db.visit(&url(&domain_two, "/foo/test/2")).unwrap();
    db.visit(&url(&domain_two, "/foo/test/2")).unwrap();
    db.visit(&url(&domain_two, "/bar/test/2")).unwrap();
    db.visit(&url(&domain_two, "/bar/test/2")).unwrap();
    db.visit(&url(&domain_two, "/bar/test/2")).unwrap();

    let expected_one = vec![
        url(&domain_one, "/foo/test/1"),
        url(&domain_one, "/bar/test/1"),
    ];
    let unique_urls = db.unique_urls_for_domain(&domain_one).unwrap();

    compare_sorted(texts(&expected_one), texts(&unique_urls));

    let expected_two = vec![
        url(&domain_two, "/foo/test/2"),
        url(&domain_two, "/bar/test/2"),
    ];
    let unique_urls = db.unique_urls_for_domain(&domain_two).unwrap();

    compare_sorted(texts(&expected_two), texts(&unique_urls));
}

#[test]
fn test_url_count_for_domain() {
    let mut db = Db::default();
    let domain = CrawlUrl::parse("https://example.com").unwrap();

    db.visit(&url(&domain, "/foo")).unwrap();
    db.visit(&url(&domain, "/foo")).unwrap();
    db.visit(&url(&domain, "/bar")).unwrap();
    db.visit(&url(&domain, "/bar")).unwrap();
    db.visit(&url(&domain, "/bar")).unwrap();

    assert_eq!(db.url_count_for_domain(&url(&domain, "/foo")).unwrap(), 2);
    assert_eq!(db.url_count_for_domain(&url(&domain, "/bar")).unwrap(), 3);

    assert_eq!(db.url_count_for_domain(&url(&domain, "/baz")).unwrap(), 0);

    let non_existant_domain = CrawlUrl::parse("https://who.com").unwrap();
    assert_eq!(
        db.url_count_for_domain(&url(&non_existant_domain, "/foo")),
        Err(DbError::DomainDoesNotExist)
    );
}

#[test]
fn test_host_less_url_is_rejected() {
    let mut db = Db::default();
    let by_ip = CrawlUrl::parse("https://127.0.0.1/foo").unwrap();

    assert_eq!(
        db.is_first_visit(&by_ip),
        Err(DbError::DoesNotContainDomain)
    );
    assert_eq!(db.visit(&by_ip), Err(DbError::DoesNotContainDomain));
    assert_eq!(
        db.unique_urls_for_domain(&by_ip).unwrap_err(),
        DbError::DoesNotContainDomain
    );
    assert_eq!(
        db.url_count_for_domain(&by_ip),
        Err(DbError::DoesNotContainDomain)
    );
}

#[test]
fn test_error_messages() {
    assert_eq!(
        DbError::DoesNotContainDomain.message(),
        "URL does not contain domain"
    );
    assert_eq!(DbError::DomainDoesNotExist.message(), "Domain does not exist");
}

#[test]
fn test_unique_urls_resolve_against_domain() {
    let mut db = Db::default();
    let domain = CrawlUrl::parse("https://example.com").unwrap();

    db.visit(&url(&domain, "/a/b?q=1")).unwrap();

    let unique_urls = db.unique_urls_for_domain(&domain).unwrap();
    assert_eq!(texts(&unique_urls), vec!["https://example.com/a/b?q=1"]);
}
