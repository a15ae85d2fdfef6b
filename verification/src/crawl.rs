//! The crawl orchestrator's decision core.
//!
//! A session crawls one domain. The orchestrator pulls discovered URLs off a
//! merged stream and decides, one URL at a time, whether to spawn a fetch
//! task for it: the URL must belong to the session's domain, pass the
//! robots.txt gate, and not have been visited before; every URL that gets
//! this far is recorded in the visit store, repeats included. The event loop
//! around the decision — the stream plumbing, task spawning and the shutdown
//! broadcast — is the runtime's business and lives with the caller; it feeds
//! `on_event` and performs the step it returns.

use vstd::prelude::*;
use crate::db::{Db, DomainsView, key_visited, url_visited, with_url_visit};
use crate::robots::{allowed_by_robots, robots_allowed, robots_text_safe};
use crate::urls::{join_url, same_authority, url_join_of, CrawlUrl, UrlParts};

verus! {

/// Whether a URL should be fetched or passed over.
#[derive(Debug, PartialEq, Eq, Structural)]
pub enum ProcessResult {
    ShouldVisit,
    ShouldNotVisit,
}

/// What the orchestrator can pull off the merged stream of one session.
pub enum CrawlEvent {
    /// A task (or the seed) emitted a resolved URL.
    Discovered(CrawlUrl),
    /// Every task's output stream has ended: the fan-out has drained.
    Exhausted,
    /// The shutdown broadcast fired.
    Shutdown,
}

/// What the caller's event loop must do next.
pub enum CrawlStep {
    /// Spawn a fetch task for this URL and keep looping.
    Spawn(CrawlUrl),
    /// Keep looping without spawning.
    Skip,
    /// Leave the loop and drain the spawned tasks.
    Finish,
}

/// Whether processing `u` in a session for `domain` under `robots` records a
/// visit: the authorities agree — scheme, host and port, the session's
/// domain restriction — the robots rules allow the URL, and the host is a
/// domain name the store can file it under.
pub open spec fn records_visit(domain: UrlParts, robots: Seq<char>, u: UrlParts) -> bool {
    &&& same_authority(u, domain)
    &&& robots_allowed(robots, u.text)
    &&& u.host is Some
}

/// The orchestrator's visit decision: `u` is fetched exactly when its visit
/// is recorded and no visit of it was recorded before.
pub open spec fn should_visit(
    domain: UrlParts,
    robots: Seq<char>,
    db: DomainsView,
    u: UrlParts,
) -> bool {
    records_visit(domain, robots, u) && !url_visited(db, u)
}

/// The visit store after the orchestrator processed `u`.
pub open spec fn db_after_process(
    domain: UrlParts,
    robots: Seq<char>,
    db: DomainsView,
    u: UrlParts,
) -> DomainsView {
    if records_visit(domain, robots, u) {
        with_url_visit(db, u)
    } else {
        db
    }
}

/// The ghost content of a crawler: its domain's parts and its robots rules.
pub struct CrawlerView {
    pub domain: UrlParts,
    pub robots: Seq<char>,
}

/// One domain's crawler: holds the session domain and the robots.txt text
/// fetched at session start, and decides which discovered URLs to fetch.
pub struct Crawler {
    domain: CrawlUrl,
    robots_txt: String,
}

impl View for Crawler {
    type V = CrawlerView;

    closed spec fn view(&self) -> CrawlerView {
        CrawlerView { domain: self.domain@, robots: self.robots_txt@ }
    }
}

impl Crawler {
    /// The session domain is a well-formed absolute URL, and the installed
    /// robots rules text is one the matcher handles without fault.
    pub closed spec fn wf(&self) -> bool {
        self.domain.wf() && robots_text_safe(self.robots_txt@)
    }

    /// A crawler for `domain`, with no robots rules yet (everything its
    /// domain restriction admits is allowed until rules are supplied).
    pub fn new(domain: CrawlUrl) -> (r: Crawler)
        requires
            domain.wf(),
        ensures
            r@.domain == domain@,
            r@.robots == Seq::<char>::empty(),
            r.wf(),
    {
        Crawler { domain, robots_txt: String::new() }
    }

    /// The session's domain.
    pub fn domain(&self) -> (r: &CrawlUrl)
        ensures
            r@ == self@.domain,
            self.wf() ==> r.wf(),
    {
        &self.domain
    }

    /// Where the session's robots.txt lives: `robots.txt` resolved against
    /// the session domain.
    pub fn robots_url(&self) -> (r: Option<CrawlUrl>)
        requires
            self.wf(),
        ensures
            match r {
                Some(u) => url_join_of(self@.domain.text, "robots.txt"@) == Some(u@.text)
                    && u.wf(),
                None => url_join_of(self@.domain.text, "robots.txt"@) is None,
            },
    {
        join_url(&self.domain, "robots.txt")
    }

    /// Install the robots.txt text fetched at session start (an unavailable
    /// robots.txt stays the empty text, which disallows nothing). The caller
    /// keeps out texts the matcher cannot handle (see `robots_text_safe`)
    /// and treats them as unavailable.
    pub fn set_robots_txt(&mut self, robots_txt: String)
        requires
            old(self).wf(),
            robots_text_safe(robots_txt@),
        ensures
            final(self)@.domain == old(self)@.domain,
            final(self)@.robots == robots_txt@,
            final(self).wf(),
    {
        self.robots_txt = robots_txt;
    }

    /// The visit decision for one discovered URL. Records the visit (repeats
    /// included) whenever the URL shares the session's authority and is
    /// robots-allowed, and says to fetch it exactly when that visit was its
    /// first.
    pub fn process_url(&self, url: &CrawlUrl, db: &mut Db) -> (r: ProcessResult)
        requires
            self.wf(),
            old(db).wf(),
        ensures
            final(db).wf(),
            final(db)@ == db_after_process(self@.domain, self@.robots, old(db)@, url@),
            r == ProcessResult::ShouldVisit <==> should_visit(
                self@.domain,
                self@.robots,
                old(db)@,
                url@,
            ),
    {
        let same_scheme = *url.scheme() == *self.domain.scheme();
        let same_host = match (url.host(), self.domain.host()) {
            (Some(a), Some(b)) => *a == *b,
            (None, None) => true,
            _ => false,
        };
        let same_port = match (url.port(), self.domain.port()) {
            (Some(a), Some(b)) => a == b,
            (None, None) => true,
            _ => false,
        };
        if !(same_scheme && same_host && same_port) {
            return ProcessResult::ShouldNotVisit;
        }
        if !allowed_by_robots(self.robots_txt.as_str(), url) {
            return ProcessResult::ShouldNotVisit;
        }
        let first = match db.is_first_visit(url) {
            Ok(b) => b,
            Err(_) => {
                return ProcessResult::ShouldNotVisit;
            },
        };
        match db.visit(url) {
            Ok(_) => {
            },
            Err(_) => {
                return ProcessResult::ShouldNotVisit;
            },
        }
        if first {
            ProcessResult::ShouldVisit
        } else {
            ProcessResult::ShouldNotVisit
        }
    }

    /// One orchestrator step: decide on a discovered URL, or finish when the
    /// stream is exhausted or shutdown was signalled. Only a discovered URL
    /// can touch the visit store.
    pub fn on_event(&self, event: CrawlEvent, db: &mut Db) -> (r: CrawlStep)
        requires
            self.wf(),
            old(db).wf(),
        ensures
            final(db).wf(),
            match event {
                CrawlEvent::Discovered(u) => {
                    &&& final(db)@ == db_after_process(self@.domain, self@.robots, old(db)@, u@)
                    &&& (r == CrawlStep::Spawn(u) <==> should_visit(
                        self@.domain,
                        self@.robots,
                        old(db)@,
                        u@,
                    ))
                    &&& (r == CrawlStep::Spawn(u) || r == CrawlStep::Skip)
                },
                CrawlEvent::Exhausted => r == CrawlStep::Finish && final(db)@ == old(db)@,
                CrawlEvent::Shutdown => r == CrawlStep::Finish && final(db)@ == old(db)@,
            },
    {
        match event {
            CrawlEvent::Discovered(u) => match self.process_url(&u, db) {
                ProcessResult::ShouldVisit => CrawlStep::Spawn(u),
                ProcessResult::ShouldNotVisit => CrawlStep::Skip,
            },
            CrawlEvent::Exhausted => CrawlStep::Finish,
            CrawlEvent::Shutdown => CrawlStep::Finish,
        }
    }
}

/// Law: of two URLs with the same host domain and the same visit key, at
/// most one passes the visit decision — once the first one's visit is
/// recorded, the second is no longer a first visit, wherever it was
/// discovered.
pub proof fn lemma_visit_dedup(
    domain: UrlParts,
    robots: Seq<char>,
    db: DomainsView,
    u: UrlParts,
    v: UrlParts,
)
    requires
        u.host == v.host,
        u.key == v.key,
    ensures
        !(should_visit(domain, robots, db, u) && should_visit(
            domain,
            robots,
            db_after_process(domain, robots, db, u),
            v,
        )),
{
    if should_visit(domain, robots, db, u) {
        let h = u.host.unwrap();
        let db2 = db_after_process(domain, robots, db, u);
        assert(db2.dom().contains(h));
        assert(db2[h].dom().contains(u.key));
        assert(url_visited(db2, v));
    }
}

/// The visit store after the orchestrator processed a series of discovered
/// URLs, first to last.
pub open spec fn db_after_session(
    domain: UrlParts,
    robots: Seq<char>,
    db: DomainsView,
    urls: Seq<UrlParts>,
) -> DomainsView
    decreases urls.len(),
{
    if urls.len() == 0 {
        db
    } else {
        db_after_process(
            domain,
            robots,
            db_after_session(domain, robots, db, urls.drop_last()),
            urls.last(),
        )
    }
}

/// Law: a key, once recorded, stays recorded for the rest of the session, so
/// no later discovery of a URL with that host and key is ever fetched — of
/// any two discoveries of the same key, at most one spawns a task, whatever
/// was processed in between.
pub proof fn lemma_visited_persists(
    domain: UrlParts,
    robots: Seq<char>,
    db: DomainsView,
    urls: Seq<UrlParts>,
    host: Seq<char>,
    key: Seq<char>,
)
    requires
        key_visited(db, host, key),
    ensures
        key_visited(db_after_session(domain, robots, db, urls), host, key),
        forall|v: UrlParts|
            v.host == Some(host) && v.key == key ==> !should_visit(
                domain,
                robots,
                db_after_session(domain, robots, db, urls),
                v,
            ),
    decreases urls.len(),
{
    if urls.len() > 0 {
        lemma_visited_persists(domain, robots, db, urls.drop_last(), host, key);
    }
}

/// Law: a whole session for a domain records nothing under any other host:
/// whatever URLs are discovered, every other domain's records end the
/// session exactly as they began it.
pub proof fn lemma_session_stays_in_domain(
    domain: UrlParts,
    robots: Seq<char>,
    db: DomainsView,
    urls: Seq<UrlParts>,
    h: Seq<char>,
)
    requires
        domain.host != Some(h),
    ensures
        db_after_session(domain, robots, db, urls).dom().contains(h) == db.dom().contains(h),
        db.dom().contains(h) ==> db_after_session(domain, robots, db, urls)[h] == db[h],
    decreases urls.len(),
{
    if urls.len() > 0 {
        lemma_session_stays_in_domain(domain, robots, db, urls.drop_last(), h);
        lemma_no_out_of_domain_records(
            domain,
            robots,
            db_after_session(domain, robots, db, urls.drop_last()),
            urls.last(),
        );
    }
}

/// Law: a key every discovery of which the robots rules disallow is never
/// recorded over a whole session that starts without it.
pub proof fn lemma_disallowed_never_recorded(
    domain: UrlParts,
    robots: Seq<char>,
    db: DomainsView,
    urls: Seq<UrlParts>,
    host: Seq<char>,
    key: Seq<char>,
)
    requires
        !key_visited(db, host, key),
        forall|i: int|
            0 <= i < urls.len() && (#[trigger] urls[i]).host == Some(host) && urls[i].key == key
                ==> !robots_allowed(robots, urls[i].text),
    ensures
        !key_visited(db_after_session(domain, robots, db, urls), host, key),
    decreases urls.len(),
{
    if urls.len() > 0 {
        assert forall|i: int|
            0 <= i < urls.drop_last().len() && (#[trigger] urls.drop_last()[i]).host == Some(host)
                && urls.drop_last()[i].key == key implies !robots_allowed(
            robots,
            urls.drop_last()[i].text,
        ) by {
            assert(urls.drop_last()[i] == urls[i]);
        }
        lemma_disallowed_never_recorded(domain, robots, db, urls.drop_last(), host, key);
        assert(urls.last() == urls[urls.len() - 1]);
    }
}

/// Law: a URL that the robots rules disallow is never fetched and never
/// recorded.
pub proof fn lemma_robots_respected(
    domain: UrlParts,
    robots: Seq<char>,
    db: DomainsView,
    u: UrlParts,
)
    requires
        !robots_allowed(robots, u.text),
    ensures
        !should_visit(domain, robots, db, u),
        db_after_process(domain, robots, db, u) == db,
{
}

/// Law: processing a URL records nothing outside the session's domain. A URL
/// whose authority (scheme, host or port) differs from the session's is
/// never fetched and changes nothing at all, and no other domain's records
/// are ever touched.
pub proof fn lemma_no_out_of_domain_records(
    domain: UrlParts,
    robots: Seq<char>,
    db: DomainsView,
    u: UrlParts,
)
    ensures
        !same_authority(u, domain) ==> !should_visit(domain, robots, db, u)
            && db_after_process(domain, robots, db, u) == db,
        forall|h: Seq<char>|
            domain.host != Some(h) ==> #[trigger] db_after_process(
                domain,
                robots,
                db,
                u,
            ).dom().contains(h) == db.dom().contains(h),
        forall|h: Seq<char>|
            domain.host != Some(h) && db.dom().contains(h) ==> #[trigger] db_after_process(
                domain,
                robots,
                db,
                u,
            )[h] == db[h],
{
}

} // verus!
