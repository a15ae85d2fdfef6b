//! The visit store: which URLs have been seen, per domain, and how often.
//!
//! The store is a value type here; sharing it across concurrent tasks is the
//! caller's concern (a lock around the whole store preserves every contract
//! below, since each operation is one critical section).
//!
//! The mathematical content is a map from host domains to maps from visit
//! keys (path + query + fragment) to occurrence counts. A key is in the map
//! if and only if it has been visited at least once, and its count says how
//! many times.

use vstd::prelude::*;
use crate::urls::{CrawlUrl, UrlParts};

verus! {

/// What a visit-store operation can fail with.
#[derive(Clone, Copy, Debug, PartialEq, Eq, Structural)]
pub enum DbError {
    /// The URL's host is not a domain name, so it cannot be partitioned.
    DoesNotContainDomain,
    /// The queried domain has no records at all.
    DomainDoesNotExist,
}

impl DbError {
    /// A human-readable description, for callers that report errors.
    pub fn message(&self) -> (r: &'static str)
        ensures
            *self matches DbError::DoesNotContainDomain ==> r@ == "URL does not contain domain"@,
            *self matches DbError::DomainDoesNotExist ==> r@ == "Domain does not exist"@,
    {
        match self {
            DbError::DoesNotContainDomain => "URL does not contain domain",
            DbError::DomainDoesNotExist => "Domain does not exist",
        }
    }
}

/// The abstract content of the store: host domain -> visit key -> count.
pub type DomainsView = Map<Seq<char>, Map<Seq<char>, nat>>;

/// Whether `key` under `host` has been visited at least once.
pub open spec fn key_visited(db: DomainsView, host: Seq<char>, key: Seq<char>) -> bool {
    db.dom().contains(host) && db[host].dom().contains(key)
}

/// How often `key` under `host` has been visited (0 when never).
pub open spec fn key_count(db: DomainsView, host: Seq<char>, key: Seq<char>) -> nat {
    if key_visited(db, host, key) {
        db[host][key]
    } else {
        0
    }
}

/// One more than `c`, stopped at the machine's limit.
pub open spec fn saturating_inc(c: nat) -> nat {
    if c < usize::MAX {
        c + 1
    } else {
        c
    }
}

/// The store after one more visit of `key` under `host`.
pub open spec fn with_visit(db: DomainsView, host: Seq<char>, key: Seq<char>) -> DomainsView {
    let sub = if db.dom().contains(host) {
        db[host]
    } else {
        Map::empty()
    };
    db.insert(host, sub.insert(key, saturating_inc(key_count(db, host, key))))
}

/// Whether the URL has been visited: false when its host is no domain name.
pub open spec fn url_visited(db: DomainsView, u: UrlParts) -> bool {
    match u.host {
        Some(h) => key_visited(db, h, u.key),
        None => false,
    }
}

/// The URL's visit count (0 when never visited or host-less).
pub open spec fn url_count(db: DomainsView, u: UrlParts) -> nat {
    match u.host {
        Some(h) => key_count(db, h, u.key),
        None => 0,
    }
}

/// Whether the URL's domain has any record at all.
pub open spec fn url_domain_known(db: DomainsView, u: UrlParts) -> bool {
    match u.host {
        Some(h) => db.dom().contains(h),
        None => false,
    }
}

/// The store after a `visit` call on the URL (unchanged when host-less).
pub open spec fn with_url_visit(db: DomainsView, u: UrlParts) -> DomainsView {
    match u.host {
        Some(h) => with_visit(db, h, u.key),
        None => db,
    }
}

/// The absolute URLs the stored keys of one domain resolve to against `base`.
pub open spec fn joined_urls_of(sub: Map<Seq<char>, nat>, base: Seq<char>) -> Set<Seq<char>> {
    Set::new(
        |t: Seq<char>|
            exists|k: Seq<char>|
                sub.dom().contains(k) && crate::urls::url_join_of(base, k) == Some(t),
    )
}

/// The store after a series of `visit` calls, first to last.
pub open spec fn db_after_visits(db: DomainsView, urls: Seq<UrlParts>) -> DomainsView
    decreases urls.len(),
{
    if urls.len() == 0 {
        db
    } else {
        with_url_visit(db_after_visits(db, urls.drop_last()), urls.last())
    }
}

/// How many of a series of `visit` calls named `key` under `host`.
pub open spec fn visits_of(urls: Seq<UrlParts>, host: Seq<char>, key: Seq<char>) -> nat
    decreases urls.len(),
{
    if urls.len() == 0 {
        0
    } else {
        visits_of(urls.drop_last(), host, key) + if urls.last().host == Some(host)
            && urls.last().key == key {
            1nat
        } else {
            0nat
        }
    }
}

/// Law: one more visit never lowers any count, raises the visited URL's own
/// count by exactly one while it is below the machine's limit, and leaves
/// every other count as it was.
pub proof fn lemma_visit_count(db: DomainsView, u: UrlParts, host: Seq<char>, key: Seq<char>)
    ensures
        key_count(with_url_visit(db, u), host, key) >= key_count(db, host, key),
        u.host == Some(host) && u.key == key && key_count(db, host, key) < usize::MAX
            ==> key_count(with_url_visit(db, u), host, key) == key_count(db, host, key) + 1,
        !(u.host == Some(host) && u.key == key) ==> key_count(with_url_visit(db, u), host, key)
            == key_count(db, host, key),
{
}

/// Law: once a `visit` of a URL has been recorded, a first-visit check on
/// that URL observes it.
pub proof fn lemma_visit_observed(db: DomainsView, u: UrlParts)
    requires
        u.host is Some,
    ensures
        url_visited(with_url_visit(db, u), u),
{
}

/// Law: counts are monotonically non-decreasing under any further series of
/// `visit` calls.
pub proof fn lemma_count_monotone(
    db: DomainsView,
    urls: Seq<UrlParts>,
    host: Seq<char>,
    key: Seq<char>,
)
    ensures
        key_count(db_after_visits(db, urls), host, key) >= key_count(db, host, key),
    decreases urls.len(),
{
    if urls.len() > 0 {
        lemma_count_monotone(db, urls.drop_last(), host, key);
        lemma_visit_count(db_after_visits(db, urls.drop_last()), urls.last(), host, key);
    }
}

/// Law: starting from an empty store, a key's count after a series of
/// `visit` calls is exactly the number of those calls that named it.
pub proof fn lemma_count_is_number_of_visits(
    urls: Seq<UrlParts>,
    host: Seq<char>,
    key: Seq<char>,
)
    requires
        urls.len() <= usize::MAX,
    ensures
        key_count(db_after_visits(DomainsView::empty(), urls), host, key) == visits_of(
            urls,
            host,
            key,
        ),
        visits_of(urls, host, key) <= urls.len(),
    decreases urls.len(),
{
    if urls.len() > 0 {
        lemma_count_is_number_of_visits(urls.drop_last(), host, key);
        lemma_visit_count(
            db_after_visits(DomainsView::empty(), urls.drop_last()),
            urls.last(),
            host,
            key,
        );
    }
}

/// Law: starting from an empty store, a key is recorded under a domain
/// exactly when some `visit` call named it.
pub proof fn lemma_recorded_iff_visited(urls: Seq<UrlParts>, host: Seq<char>, key: Seq<char>)
    ensures
        key_visited(db_after_visits(DomainsView::empty(), urls), host, key) <==> visits_of(
            urls,
            host,
            key,
        ) > 0,
    decreases urls.len(),
{
    if urls.len() > 0 {
        lemma_recorded_iff_visited(urls.drop_last(), host, key);
    }
}

struct VisitEntry {
    host: String,
    key: String,
    count: usize,
}

/// In-memory visit store, one record per (domain, visit key) pair.
pub struct Db {
    entries: Vec<VisitEntry>,
}

spec fn has_host(s: Seq<VisitEntry>, h: Seq<char>) -> bool {
    exists|i: int| 0 <= i < s.len() && s[i].host@ == h
}

spec fn has_pair(s: Seq<VisitEntry>, h: Seq<char>, k: Seq<char>) -> bool {
    exists|i: int| 0 <= i < s.len() && s[i].host@ == h && s[i].key@ == k
}

spec fn pair_index(s: Seq<VisitEntry>, h: Seq<char>, k: Seq<char>) -> int {
    choose|i: int| 0 <= i < s.len() && s[i].host@ == h && s[i].key@ == k
}

spec fn host_view(s: Seq<VisitEntry>, h: Seq<char>) -> Map<Seq<char>, nat> {
    Map::new(
        |k: Seq<char>| has_pair(s, h, k),
        |k: Seq<char>| s[pair_index(s, h, k)].count as nat,
    )
}

spec fn entries_view(s: Seq<VisitEntry>) -> DomainsView {
    Map::new(|h: Seq<char>| has_host(s, h), |h: Seq<char>| host_view(s, h))
}

spec fn entries_wf(s: Seq<VisitEntry>) -> bool {
    forall|i: int, j: int|
        0 <= i < j < s.len() ==> !(s[i].host@ == s[j].host@ && s[i].key@ == s[j].key@)
}

impl View for Db {
    type V = DomainsView;

    closed spec fn view(&self) -> DomainsView {
        entries_view(self.entries@)
    }
}

proof fn lemma_pair_found(s: Seq<VisitEntry>, i: int)
    requires
        entries_wf(s),
        0 <= i < s.len(),
    ensures
        has_pair(s, s[i].host@, s[i].key@),
        pair_index(s, s[i].host@, s[i].key@) == i,
        key_visited(entries_view(s), s[i].host@, s[i].key@),
        key_count(entries_view(s), s[i].host@, s[i].key@) == s[i].count,
{
    let h = s[i].host@;
    let k = s[i].key@;
    assert(0 <= i < s.len() && s[i].host@ == h && s[i].key@ == k);
    let j = pair_index(s, h, k);
    assert(0 <= j < s.len() && s[j].host@ == h && s[j].key@ == k);
    if i != j {
        if i < j {
            assert(!(s[i].host@ == s[j].host@ && s[i].key@ == s[j].key@));
        } else {
            assert(!(s[j].host@ == s[i].host@ && s[j].key@ == s[i].key@));
        }
    }
    assert(has_host(s, h));
    assert(entries_view(s)[h] == host_view(s, h));
    assert(host_view(s, h)[k] == s[i].count as nat);
}

proof fn lemma_pair_absent(s: Seq<VisitEntry>, h: Seq<char>, k: Seq<char>)
    requires
        !has_pair(s, h, k),
    ensures
        !key_visited(entries_view(s), h, k),
        key_count(entries_view(s), h, k) == 0,
{
    if entries_view(s).dom().contains(h) {
        assert(!host_view(s, h).dom().contains(k));
    }
}

proof fn lemma_update_entry(s: Seq<VisitEntry>, i: int, s2: Seq<VisitEntry>)
    requires
        entries_wf(s),
        0 <= i < s.len(),
        s2.len() == s.len(),
        s2 == s.update(i, s2[i]),
        s2[i].host@ == s[i].host@,
        s2[i].key@ == s[i].key@,
        s2[i].count as nat == saturating_inc(s[i].count as nat),
    ensures
        entries_wf(s2),
        entries_view(s2) == with_visit(entries_view(s), s[i].host@, s[i].key@),
{
    let h0 = s[i].host@;
    let k0 = s[i].key@;
    assert forall|p: int, q: int| 0 <= p < q < s2.len() implies !(s2[p].host@ == s2[q].host@
        && s2[p].key@ == s2[q].key@) by {
        assert(p == i || s2[p] == s[p]);
        assert(q == i || s2[q] == s[q]);
        assert(s2[p].host@ == s[p].host@ && s2[p].key@ == s[p].key@);
        assert(s2[q].host@ == s[q].host@ && s2[q].key@ == s[q].key@);
    }
    lemma_pair_found(s, i);
    lemma_pair_found(s2, i);
    assert forall|h: Seq<char>| has_host(s2, h) <==> has_host(s, h) by {
        if has_host(s2, h) {
            let p = choose|p: int| 0 <= p < s2.len() && s2[p].host@ == h;
            assert(s[p].host@ == h);
        }
        if has_host(s, h) {
            let p = choose|p: int| 0 <= p < s.len() && s[p].host@ == h;
            assert(s2[p].host@ == h);
        }
    }
    assert forall|h: Seq<char>, k: Seq<char>| has_pair(s2, h, k) <==> has_pair(s, h, k) by {
        if has_pair(s2, h, k) {
            let p = choose|p: int| 0 <= p < s2.len() && s2[p].host@ == h && s2[p].key@ == k;
            assert(s[p].host@ == h && s[p].key@ == k);
        }
        if has_pair(s, h, k) {
            let p = choose|p: int| 0 <= p < s.len() && s[p].host@ == h && s[p].key@ == k;
            assert(s2[p].host@ == h && s2[p].key@ == k);
        }
    }
    assert forall|h: Seq<char>, k: Seq<char>|
        has_pair(s, h, k) && !(h == h0 && k == k0) implies #[trigger] host_view(s2, h)[k]
        == host_view(s, h)[k] by {
        let p = choose|p: int| 0 <= p < s.len() && s[p].host@ == h && s[p].key@ == k;
        assert(p != i);
        assert(s2[p] == s[p]);
        lemma_pair_found(s, p);
        lemma_pair_found(s2, p);
        assert(host_view(s, h)[k] == s[p].count as nat);
        assert(host_view(s2, h)[k] == s2[p].count as nat);
    }
    let lhs = entries_view(s2);
    let rhs = with_visit(entries_view(s), h0, k0);
    assert forall|h: Seq<char>| lhs.dom().contains(h) <==> rhs.dom().contains(h) by {
        assert(rhs.dom() == entries_view(s).dom().insert(h0));
        assert(has_host(s, h0));
    }
    assert forall|h: Seq<char>| #[trigger] lhs.dom().contains(h) implies lhs[h] == rhs[h] by {
        if h == h0 {
            let old_sub = entries_view(s)[h0];
            assert(rhs[h0] == old_sub.insert(k0, saturating_inc(key_count(entries_view(s), h0, k0))));
            assert forall|k: Seq<char>|
                host_view(s2, h0).dom().contains(k) <==> rhs[h0].dom().contains(k) by {
                assert(old_sub.dom() == Set::new(|k: Seq<char>| has_pair(s, h0, k)));
            }
            assert forall|k: Seq<char>| #[trigger] host_view(s2, h0).dom().contains(k)
                implies host_view(s2, h0)[k] == rhs[h0][k] by {
                if k == k0 {
                    assert(host_view(s2, h0)[k0] == s2[i].count as nat);
                } else {
                    assert(has_pair(s, h0, k));
                    assert(host_view(s2, h0)[k] == host_view(s, h0)[k]);
                    assert(rhs[h0][k] == old_sub[k]);
                }
            }
            assert(lhs[h0] =~= rhs[h0]);
        } else {
            assert(rhs[h] == entries_view(s)[h]);
            assert forall|k: Seq<char>|
                host_view(s2, h).dom().contains(k) <==> host_view(s, h).dom().contains(k) by {}
            assert forall|k: Seq<char>| #[trigger] host_view(s2, h).dom().contains(k)
                implies host_view(s2, h)[k] == host_view(s, h)[k] by {
                assert(has_pair(s, h, k) && !(h == h0 && k == k0));
            }
            assert(lhs[h] =~= rhs[h]);
        }
    }
    assert(lhs =~= rhs);
}

proof fn lemma_push_entry(s: Seq<VisitEntry>, e: VisitEntry)
    requires
        entries_wf(s),
        !has_pair(s, e.host@, e.key@),
        e.count == 1,
    ensures
        entries_wf(s.push(e)),
        entries_view(s.push(e)) == with_visit(entries_view(s), e.host@, e.key@),
{
    let s2 = s.push(e);
    let h0 = e.host@;
    let k0 = e.key@;
    let n = s.len() as int;
    assert(s2[n] == e);
    assert forall|p: int| 0 <= p < n implies s2[p] == s[p] by {}
    assert forall|p: int, q: int| 0 <= p < q < s2.len() implies !(s2[p].host@ == s2[q].host@
        && s2[p].key@ == s2[q].key@) by {
        if q == n {
            assert(s2[p] == s[p]);
            if s[p].host@ == h0 && s[p].key@ == k0 {
                assert(has_pair(s, h0, k0));
            }
        }
    }
    lemma_pair_absent(s, h0, k0);
    lemma_pair_found(s2, n);
    assert forall|h: Seq<char>| has_host(s2, h) <==> (has_host(s, h) || h == h0) by {
        if has_host(s2, h) {
            let p = choose|p: int| 0 <= p < s2.len() && s2[p].host@ == h;
            if p < n {
                assert(s[p].host@ == h);
            }
        }
        if has_host(s, h) {
            let p = choose|p: int| 0 <= p < s.len() && s[p].host@ == h;
            assert(s2[p].host@ == h);
        }
        assert(s2[n].host@ == h0);
    }
    assert forall|h: Seq<char>, k: Seq<char>|
        has_pair(s2, h, k) <==> (has_pair(s, h, k) || (h == h0 && k == k0)) by {
        if has_pair(s2, h, k) {
            let p = choose|p: int| 0 <= p < s2.len() && s2[p].host@ == h && s2[p].key@ == k;
            if p < n {
                assert(s[p].host@ == h && s[p].key@ == k);
            }
        }
        if has_pair(s, h, k) {
            let p = choose|p: int| 0 <= p < s.len() && s[p].host@ == h && s[p].key@ == k;
            assert(s2[p].host@ == h && s2[p].key@ == k);
        }
        assert(s2[n].host@ == h0 && s2[n].key@ == k0);
    }
    assert forall|h: Seq<char>, k: Seq<char>|
        has_pair(s, h, k) implies #[trigger] host_view(s2, h)[k] == host_view(s, h)[k] by {
        let p = choose|p: int| 0 <= p < s.len() && s[p].host@ == h && s[p].key@ == k;
        assert(s2[p] == s[p]);
        lemma_pair_found(s, p);
        lemma_pair_found(s2, p);
    }
    let lhs = entries_view(s2);
    let rhs = with_visit(entries_view(s), h0, k0);
    assert(key_count(entries_view(s), h0, k0) == 0);
    assert forall|h: Seq<char>| lhs.dom().contains(h) <==> rhs.dom().contains(h) by {
        assert(rhs.dom() == entries_view(s).dom().insert(h0));
    }
    assert forall|h: Seq<char>| #[trigger] lhs.dom().contains(h) implies lhs[h] == rhs[h] by {
        if h == h0 {
            let old_sub = if entries_view(s).dom().contains(h0) {
                entries_view(s)[h0]
            } else {
                Map::<Seq<char>, nat>::empty()
            };
            assert(rhs[h0] == old_sub.insert(k0, 1nat));
            assert forall|k: Seq<char>|
                host_view(s2, h0).dom().contains(k) <==> rhs[h0].dom().contains(k) by {
                if k != k0 && old_sub.dom().contains(k) {
                    assert(has_pair(s, h0, k));
                }
                if k != k0 && has_pair(s, h0, k) {
                    let p = choose|p: int| 0 <= p < s.len() && s[p].host@ == h0 && s[p].key@ == k;
                    assert(has_host(s, h0));
                }
            }
            assert forall|k: Seq<char>| #[trigger] host_view(s2, h0).dom().contains(k)
                implies host_view(s2, h0)[k] == rhs[h0][k] by {
                if k == k0 {
                    assert(host_view(s2, h0)[k0] == s2[n].count as nat);
                } else {
                    assert(has_pair(s, h0, k));
                    assert(has_host(s, h0));
                    assert(rhs[h0][k] == old_sub[k]);
                    assert(old_sub[k] == host_view(s, h0)[k]);
                }
            }
            assert(lhs[h0] =~= rhs[h0]);
        } else {
            assert(has_host(s, h));
            assert(rhs[h] == entries_view(s)[h]);
            assert forall|k: Seq<char>|
                host_view(s2, h).dom().contains(k) <==> host_view(s, h).dom().contains(k) by {
                assert(has_pair(s2, h, k) <==> has_pair(s, h, k) || (h == h0 && k == k0));
            }
            assert forall|k: Seq<char>| #[trigger] host_view(s2, h).dom().contains(k)
                implies host_view(s2, h)[k] == host_view(s, h)[k] by {
                assert(has_pair(s, h, k));
            }
            assert(lhs[h] =~= rhs[h]);
        }
    }
    assert(lhs =~= rhs);
}

impl Default for Db {
    /// An empty store: no domain has any record.
    fn default() -> (r: Db)
        ensures
            r@ == DomainsView::empty(),
            r.wf(),
    {
        let r = Db { entries: Vec::new() };
        proof {
            assert(r@ =~= DomainsView::empty());
        }
        r
    }
}

impl Db {
    /// The store's records are internally consistent (one record per pair).
    pub closed spec fn wf(&self) -> bool {
        entries_wf(self.entries@)
    }

    fn find_pair(&self, host: &String, key: &String) -> (r: Option<usize>)
        ensures
            match r {
                Some(i) => i < self.entries@.len() && self.entries@[i as int].host@ == host@
                    && self.entries@[i as int].key@ == key@,
                None => !has_pair(self.entries@, host@, key@),
            },
    {
        let n = self.entries.len();
        let mut i: usize = 0;
        while i < n
            invariant
                n == self.entries@.len(),
                i <= n,
                forall|p: int|
                    0 <= p < i ==> !(self.entries@[p].host@ == host@ && self.entries@[p].key@
                        == key@),
            decreases n - i,
        {
            if self.entries[i].host == *host && self.entries[i].key == *key {
                return Some(i);
            }
            i = i + 1;
        }
        None
    }

    fn knows_host(&self, host: &String) -> (r: bool)
        ensures
            r == has_host(self.entries@, host@),
    {
        let n = self.entries.len();
        let mut i: usize = 0;
        while i < n
            invariant
                n == self.entries@.len(),
                i <= n,
                forall|p: int| 0 <= p < i ==> self.entries@[p].host@ != host@,
            decreases n - i,
        {
            if self.entries[i].host == *host {
                assert(self.entries@[i as int].host@ == host@);
                return true;
            }
            i = i + 1;
        }
        false
    }

    /// Whether no visit of `url` has been recorded yet.
    /// Fails exactly when the URL's host is no domain name.
    pub fn is_first_visit(&self, url: &CrawlUrl) -> (r: Result<bool, DbError>)
        requires
            self.wf(),
        ensures
            match r {
                Ok(b) => url@.host is Some && b == !url_visited(self@, url@),
                Err(e) => url@.host is None && e == DbError::DoesNotContainDomain,
            },
    {
        let host = match url.host() {
            Some(h) => h.clone(),
            None => {
                return Err(DbError::DoesNotContainDomain);
            },
        };
        let key = url.key().clone();
        match self.find_pair(&host, &key) {
            Some(i) => {
                proof {
                    lemma_pair_found(self.entries@, i as int);
                }
                Ok(false)
            },
            None => {
                proof {
                    lemma_pair_absent(self.entries@, host@, key@);
                }
                Ok(true)
            },
        }
    }

    /// Record one visit of `url`: its count rises by one (a fresh record
    /// starts at one). Fails, and changes nothing, exactly when the URL's
    /// host is no domain name.
    pub fn visit(&mut self, url: &CrawlUrl) -> (r: Result<(), DbError>)
        requires
            old(self).wf(),
        ensures
            final(self).wf(),
            match r {
                Ok(_) => url@.host is Some && final(self)@ == with_url_visit(old(self)@, url@),
                Err(e) => url@.host is None && e == DbError::DoesNotContainDomain && final(self)@
                    == old(self)@,
            },
    {
        let host = match url.host() {
            Some(h) => h.clone(),
            None => {
                return Err(DbError::DoesNotContainDomain);
            },
        };
        let key = url.key().clone();
        let ghost s = self.entries@;
        match self.find_pair(&host, &key) {
            Some(i) => {
                let c = self.entries[i].count;
                let c2 = if c < usize::MAX {
                    c + 1
                } else {
                    c
                };
                self.entries[i].count = c2;
                proof {
                    assert(self.entries@ == s.update(i as int, self.entries@[i as int]));
                    lemma_update_entry(s, i as int, self.entries@);
                }
            },
            None => {
                let entry = VisitEntry { host, key, count: 1 };
                self.entries.push(entry);
                proof {
                    lemma_push_entry(s, self.entries@.last());
                    assert(self.entries@ == s.push(self.entries@.last()));
                }
            },
        }
        Ok(())
    }

    fn contains_text(v: &Vec<CrawlUrl>, text: &String) -> (r: bool)
        ensures
            r == exists|p: int| 0 <= p < v@.len() && (#[trigger] v@[p])@.text == text@,
    {
        let n = v.len();
        let mut i: usize = 0;
        while i < n
            invariant
                n == v@.len(),
                i <= n,
                forall|p: int| 0 <= p < i ==> (#[trigger] v@[p])@.text != text@,
            decreases n - i,
        {
            if *v[i].text() == *text {
                assert(v@[i as int]@.text == text@);
                return true;
            }
            i = i + 1;
        }
        false
    }

    /// The absolute URLs recorded for the domain of `base`, each stored key
    /// resolved against `base`, without duplicates. Fails with
    /// `DoesNotContainDomain` when `base`'s host is no domain name, with
    /// `DomainDoesNotExist` when its domain has no records at all.
    pub fn unique_urls_for_domain(&self, base: &CrawlUrl) -> (r: Result<Vec<CrawlUrl>, DbError>)
        requires
            self.wf(),
            base.wf(),
        ensures
            match r {
                Ok(v) => match base@.host {
                    Some(h) => {
                        &&& self@.dom().contains(h)
                        &&& forall|p: int| 0 <= p < v@.len() ==> (#[trigger] v@[p]).wf()
                        &&& forall|p: int|
                            0 <= p < v@.len() ==> joined_urls_of(self@[h], base@.text).contains(
                                v@[p]@.text,
                            )
                        &&& forall|t: Seq<char>|
                            joined_urls_of(self@[h], base@.text).contains(t) ==> exists|p: int|
                                0 <= p < v@.len() && v@[p]@.text == t
                        &&& forall|p: int, q: int|
                            0 <= p < q < v@.len() ==> v@[p]@.text != v@[q]@.text
                    },
                    None => false,
                },
                Err(e) => match base@.host {
                    Some(h) => e == DbError::DomainDoesNotExist && !self@.dom().contains(h),
                    None => e == DbError::DoesNotContainDomain,
                },
            },
    {
        let host = match base.host() {
            Some(h) => h.clone(),
            None => {
                return Err(DbError::DoesNotContainDomain);
            },
        };
        if !self.knows_host(&host) {
            return Err(DbError::DomainDoesNotExist);
        }
        let ghost h = host@;
        let ghost s = self.entries@;
        let ghost sub = self@[h];
        let n = self.entries.len();
        let mut out: Vec<CrawlUrl> = Vec::new();
        let mut i: usize = 0;
        while i < n
            invariant
                self.wf(),
                base.wf(),
                n == s.len(),
                s == self.entries@,
                i <= n,
                h == host@,
                has_host(s, h),
                sub == entries_view(s)[h],
                forall|p: int| 0 <= p < out@.len() ==> (#[trigger] out@[p]).wf(),
                forall|p: int|
                    0 <= p < out@.len() ==> joined_urls_of(sub, base@.text).contains(
                        out@[p]@.text,
                    ),
                forall|q: int|
                    0 <= q < i && s[q].host@ == h && crate::urls::url_join_of(base@.text, s[q].key@)
                        is Some ==> exists|p: int|
                        0 <= p < out@.len() && Some(out@[p]@.text) == crate::urls::url_join_of(
                            base@.text,
                            s[q].key@,
                        ),
                forall|p: int, q: int| 0 <= p < q < out@.len() ==> out@[p]@.text != out@[q]@.text,
            decreases n - i,
        {
            let ghost out_pre = out@;
            if self.entries[i].host == host {
                proof {
                    lemma_pair_found(s, i as int);
                    assert(sub.dom().contains(s[i as int].key@));
                }
                match crate::urls::join_url(base, self.entries[i].key.as_str()) {
                    Some(u) => {
                        let ghost ut = u@.text;
                        let ghost jv = crate::urls::url_join_of(base@.text, s[i as int].key@);
                        let dup = Self::contains_text(&out, u.text());
                        if !dup {
                            out.push(u);
                        }
                        proof {
                            assert(jv == Some(ut));
                            if dup {
                                let p = choose|p: int|
                                    0 <= p < out_pre.len() && (#[trigger] out_pre[p])@.text == ut;
                                assert(out@[p]@.text == ut);
                            } else {
                                assert(out@[out@.len() - 1]@.text == ut);
                                assert forall|p1: int, q1: int| 0 <= p1 < q1 < out@.len()
                                    implies out@[p1]@.text != out@[q1]@.text by {
                                    assert(out@[p1] == out_pre[p1]);
                                    if q1 < out@.len() - 1 {
                                        assert(out@[q1] == out_pre[q1]);
                                    }
                                }
                            }
                            assert(exists|p: int|
                                0 <= p < out@.len() && Some((#[trigger] out@[p])@.text) == jv);
                        }
                    },
                    None => {
                    },
                }
            }
            proof {
                assert forall|q: int|
                    0 <= q < i + 1 && s[q].host@ == h && (crate::urls::url_join_of(
                        base@.text,
                        s[q].key@,
                    ) is Some) implies exists|p: int|
                    0 <= p < out@.len() && Some(out@[p]@.text) == crate::urls::url_join_of(
                        base@.text,
                        s[q].key@,
                    ) by {
                    let jv = crate::urls::url_join_of(base@.text, s[q].key@);
                    if q < i {
                        let p = choose|p: int|
                            0 <= p < out_pre.len() && Some(out_pre[p]@.text) == jv;
                        assert(out@[p] == out_pre[p]);
                        assert(0 <= p < out@.len() && Some(out@[p]@.text) == jv);
                    }
                }
            }
            i = i + 1;
        }
        proof {
            assert forall|t: Seq<char>| joined_urls_of(sub, base@.text).contains(t)
                implies exists|p: int| 0 <= p < out@.len() && out@[p]@.text == t by {
                let k = choose|k: Seq<char>|
                    sub.dom().contains(k) && crate::urls::url_join_of(base@.text, k) == Some(t);
                assert(has_pair(s, h, k));
                let q = choose|q: int| 0 <= q < s.len() && s[q].host@ == h && s[q].key@ == k;
                let p = choose|p: int|
                    0 <= p < out@.len() && Some(out@[p]@.text) == crate::urls::url_join_of(
                        base@.text,
                        s[q].key@,
                    );
                assert(out@[p]@.text == t);
            }
        }
        Ok(out)
    }

    /// The visit count for `url` (0 for an unvisited key of a known domain).
    /// Fails with `DoesNotContainDomain` when the URL's host is no domain
    /// name, with `DomainDoesNotExist` when its domain has no records at all.
    pub fn url_count_for_domain(&self, url: &CrawlUrl) -> (r: Result<usize, DbError>)
        requires
            self.wf(),
        ensures
            match r {
                Ok(c) => url_domain_known(self@, url@) && c as nat == url_count(self@, url@),
                Err(e) => match url@.host {
                    Some(h) => e == DbError::DomainDoesNotExist && !self@.dom().contains(h),
                    None => e == DbError::DoesNotContainDomain,
                },
            },
    {
        let host = match url.host() {
            Some(h) => h.clone(),
            None => {
                return Err(DbError::DoesNotContainDomain);
            },
        };
        if !self.knows_host(&host) {
            return Err(DbError::DomainDoesNotExist);
        }
        let key = url.key().clone();
        match self.find_pair(&host, &key) {
            Some(i) => {
                proof {
                    lemma_pair_found(self.entries@, i as int);
                }
                Ok(self.entries[i].count)
            },
            None => {
                proof {
                    lemma_pair_absent(self.entries@, host@, key@);
                }
                Ok(0)
            },
        }
    }
}

} // verus!
