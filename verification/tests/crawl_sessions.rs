use crawler::crawl::{CrawlEvent, CrawlStep, Crawler, ProcessResult};
use crawler::db::{Db, DbError};
use crawler::page::discovered_urls;
use crawler::registry::SessionRegistry;
use crawler::urls::{join_url, CrawlUrl};

/// Drive one session's event loop by hand: `fetch` plays the network,
/// returning a page body or a download failure.
fn run_session<F>(crawler: &Crawler, db: &mut Db, fetch: F)
where
    F: Fn(&CrawlUrl) -> Option<String>,
{
    let mut queue = vec![crawler.domain().clone()];
    loop {
        let event = match queue.pop() {
            Some(u) => CrawlEvent::Discovered(u),
            None => CrawlEvent::Exhausted,
        };
        match crawler.on_event(event, db) {
            CrawlStep::Spawn(u) => {
                if let Some(body) = fetch(&u) {
                    queue.extend(discovered_urls(crawler.domain(), &body));
                }
            }
            CrawlStep::Skip => {}
            CrawlStep::Finish => break,
        }
    }
}

fn sorted_texts(urls: &[CrawlUrl]) -> Vec<String> {
    let mut t: Vec<String> = urls.iter().map(|u| u.text().clone()).collect();
    t.sort();
    t
}

#[test]
fn crawl_domain() {
    let domain = CrawlUrl::parse("https://site.example").unwrap();
    let crawler = Crawler::new(domain.clone());
    let mut db = Db::default();

    run_session(&crawler, &mut db, |u| match u.key().as_str() {
        "/" => Some(r#"<a href="/foo">foo</a><a href="/bar">bar</a>"#.to_string()),
        "/foo" => Some("body".to_string()),
        "/bar" => None, // the download fails; the URL stays recorded
        other => panic!("unexpected fetch of {other}"),
    });

    let expected = vec![
        domain.clone(),
        join_url(&domain, "/foo").unwrap(),
        join_url(&domain, "/bar").unwrap(),
    ];
    let unique_urls = db.unique_urls_for_domain(&domain).unwrap();

    assert_eq!(sorted_texts(&unique_urls), sorted_texts(&expected));
    assert_eq!(db.url_count_for_domain(&join_url(&domain, "/bar").unwrap()).unwrap(), 1);
}

#[test]
fn duplicate_discoveries_spawn_once() {
    let domain = CrawlUrl::parse("https://site.example").unwrap();
    let crawler = Crawler::new(domain.clone());
    let mut db = Db::default();

    // Two pages both link to /shared: it is fetched once, counted twice.
    run_session(&crawler, &mut db, |u| match u.key().as_str() {
        "/" => Some(r#"<a href="/a">a</a><a href="/b">b</a>"#.to_string()),
        "/a" => Some(r#"<a href="/shared">s</a>"#.to_string()),
        "/b" => Some(r#"<a href="/shared">s</a>"#.to_string()),
        "/shared" => Some("leaf".to_string()),
        other => panic!("unexpected fetch of {other}"),
    });

    let shared = join_url(&domain, "/shared").unwrap();
    assert_eq!(db.url_count_for_domain(&shared).unwrap(), 2);
}

#[test]
fn out_of_domain_links_are_never_visited() {
    let domain = CrawlUrl::parse("https://a.example").unwrap();
    let crawler = Crawler::new(domain.clone());
    let mut db = Db::default();

    run_session(&crawler, &mut db, |u| match u.key().as_str() {
        "/" => Some(r#"<a href="https://b.example/page">away</a>"#.to_string()),
        other => panic!("unexpected fetch of {other}"),
    });

    let other_domain = CrawlUrl::parse("https://b.example/page").unwrap();
    assert_eq!(
        db.url_count_for_domain(&other_domain),
        Err(DbError::DomainDoesNotExist)
    );
    assert_eq!(
        sorted_texts(&db.unique_urls_for_domain(&domain).unwrap()),
        vec!["https://a.example/".to_string()]
    );
}

#[test]
fn same_host_other_scheme_or_port_is_not_visited() {
    let domain = CrawlUrl::parse("https://site.example").unwrap();
    let crawler = Crawler::new(domain.clone());
    let mut db = Db::default();

    // Same host, but a different scheme or an explicit non-default port:
    // a different authority, so neither is fetched or recorded.
    run_session(&crawler, &mut db, |u| match u.key().as_str() {
        "/" => Some(
            r#"<a href="http://site.example/plain">p</a>
               <a href="https://site.example:8443/alt">a</a>"#
                .to_string(),
        ),
        other => panic!("unexpected fetch of {other}"),
    });

    let plain = CrawlUrl::parse("http://site.example/plain").unwrap();
    let alt = CrawlUrl::parse("https://site.example:8443/alt").unwrap();
    assert_eq!(db.url_count_for_domain(&plain).unwrap(), 0);
    assert_eq!(db.url_count_for_domain(&alt).unwrap(), 0);
    assert_eq!(
        sorted_texts(&db.unique_urls_for_domain(&domain).unwrap()),
        vec!["https://site.example/".to_string()]
    );
}

#[test]
fn robots_disallowed_links_are_never_visited() {
    let domain = CrawlUrl::parse("https://site.example").unwrap();
    let mut crawler = Crawler::new(domain.clone());
    crawler.set_robots_txt("User-agent: *\nDisallow: /private\n".to_string());
    let mut db = Db::default();

    run_session(&crawler, &mut db, |u| match u.key().as_str() {
        "/" => Some(r#"<a href="/private/x">p</a><a href="/open">o</a>"#.to_string()),
        "/open" => Some("ok".to_string()),
        other => panic!("unexpected fetch of {other}"),
    });

    let private = join_url(&domain, "/private/x").unwrap();
    assert_eq!(db.url_count_for_domain(&private).unwrap(), 0);
    assert_eq!(
        sorted_texts(&db.unique_urls_for_domain(&domain).unwrap()),
        vec![
            "https://site.example/".to_string(),
            "https://site.example/open".to_string(),
        ]
    );
}

#[test]
fn shutdown_event_finishes_without_recording() {
    let domain = CrawlUrl::parse("https://site.example").unwrap();
    let crawler = Crawler::new(domain.clone());
    let mut db = Db::default();

    let step = crawler.on_event(CrawlEvent::Shutdown, &mut db);
    assert!(matches!(step, CrawlStep::Finish));
    assert_eq!(
        db.unique_urls_for_domain(&domain).unwrap_err(),
        DbError::DomainDoesNotExist
    );
}

#[test]
fn process_url_repeats_and_robots() {
    let domain = CrawlUrl::parse("https://site.example").unwrap();
    let mut crawler = Crawler::new(domain.clone());
    crawler.set_robots_txt("User-agent: *\nDisallow: /private\n".to_string());
    let mut db = Db::default();

    let page = join_url(&domain, "/page").unwrap();
    assert_eq!(crawler.process_url(&page, &mut db), ProcessResult::ShouldVisit);
    assert_eq!(
        crawler.process_url(&page, &mut db),
        ProcessResult::ShouldNotVisit
    );
    assert_eq!(db.url_count_for_domain(&page).unwrap(), 2);

    let private = join_url(&domain, "/private").unwrap();
    assert_eq!(
        crawler.process_url(&private, &mut db),
        ProcessResult::ShouldNotVisit
    );
    assert_eq!(db.url_count_for_domain(&private).unwrap(), 0);
}

#[test]
fn robots_url_is_under_the_domain() {
    let domain = CrawlUrl::parse("https://site.example/start").unwrap();
    let crawler = Crawler::new(domain);
    let robots = crawler.robots_url().unwrap();
    assert_eq!(robots.text(), "https://site.example/robots.txt");
}

#[test]
fn registry_allows_one_session_per_domain() {
    let mut registry = SessionRegistry::default();
    let domain = CrawlUrl::parse("https://example.com").unwrap();
    let other = CrawlUrl::parse("https://other.example").unwrap();

    assert!(!registry.is_active(&domain));
    assert!(registry.try_start(&domain));
    assert!(registry.is_active(&domain));
    // A second crawl request for the same domain starts no second session.
    assert!(!registry.try_start(&domain));
    assert!(registry.try_start(&other));

    registry.finish(&domain);
    assert!(!registry.is_active(&domain));
    assert!(registry.is_active(&other));
    assert!(registry.try_start(&domain));
}

#[test]
fn never_crawled_domain_is_not_found_then_listed() {
    let domain = CrawlUrl::parse("https://example.com").unwrap();
    let mut db = Db::default();

    assert_eq!(
        db.unique_urls_for_domain(&domain).unwrap_err(),
        DbError::DomainDoesNotExist
    );

    let crawler = Crawler::new(domain.clone());
    run_session(&crawler, &mut db, |u| match u.key().as_str() {
        "/" => Some("no links here".to_string()),
        other => panic!("unexpected fetch of {other}"),
    });

    let listed = db.unique_urls_for_domain(&domain).unwrap();
    assert_eq!(sorted_texts(&listed), vec!["https://example.com/".to_string()]);
}
