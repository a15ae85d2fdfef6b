//! Link extraction from a fetched page.
//!
//! Pulling anchor targets out of HTML is the `scraper` crate's work; what the
//! crawler owns, and what is verified here, is turning those targets into the
//! absolute URLs a page leads to: resolving each against the session domain
//! and dropping the malformed ones.

use vstd::prelude::*;
use crate::urls::{CrawlUrl, build_absolute_url, resolved_url_of};

verus! {

/// The `href` attribute values of the anchor elements of an HTML text, in
/// document order, as `scraper`'s parser finds them.
pub uninterp spec fn hrefs_of(html: Seq<char>) -> Seq<Seq<char>>;

/// Relies on `scraper`'s `Html::parse_document` and `Selector`: collects the
/// `href` attribute of every `a` element; the result depends on the text
/// alone.
#[verifier::external_body]
fn extract_hrefs(html: &str) -> (r: Vec<String>)
    ensures
        r.deep_view() == hrefs_of(html@),
{
    let selector = scraper::Selector::parse("a").unwrap();
    scraper::Html::parse_document(html)
        .select(&selector)
        .filter_map(|el| el.value().attr("href"))
        .map(|s| s.to_string())
        .collect()
}

/// The anchor targets of an HTML text, in document order.
pub fn extract_urls(html: &str) -> (r: Vec<String>)
    ensures
        r.deep_view() == hrefs_of(html@),
{
    extract_hrefs(html)
}

/// The absolute URLs an HTML page fetched from a page of `base` leads to:
/// each anchor target resolved in order, the malformed ones dropped.
pub open spec fn resolved_all(base: Seq<char>, hrefs: Seq<Seq<char>>) -> Seq<Seq<char>>
    decreases hrefs.len(),
{
    if hrefs.len() == 0 {
        Seq::empty()
    } else {
        let rest = resolved_all(base, hrefs.drop_last());
        match resolved_url_of(base, hrefs.last()) {
            Some(t) => rest.push(t),
            None => rest,
        }
    }
}

/// Every absolute URL discovered on a page downloaded from a page of
/// `domain`: each anchor target resolved against `domain`, malformed targets
/// dropped.
pub fn discovered_urls(domain: &CrawlUrl, html: &str) -> (r: Vec<CrawlUrl>)
    requires
        domain.wf(),
    ensures
        r@.map_values(|u: CrawlUrl| u@.text) == resolved_all(domain@.text, hrefs_of(html@)),
        forall|p: int| 0 <= p < r@.len() ==> (#[trigger] r@[p]).wf(),
{
    let hrefs = extract_urls(html);
    let ghost hs = hrefs_of(html@);
    let n = hrefs.len();
    let mut out: Vec<CrawlUrl> = Vec::new();
    let mut i: usize = 0;
    proof {
        assert(hs.len() == hrefs@.len());
    }
    while i < n
        invariant
            domain.wf(),
            n == hrefs@.len(),
            hrefs.deep_view() == hs,
            hs.len() == n,
            i <= n,
            out@.map_values(|u: CrawlUrl| u@.text) == resolved_all(domain@.text, hs.take(i as int)),
            forall|p: int| 0 <= p < out@.len() ==> (#[trigger] out@[p]).wf(),
        decreases n - i,
    {
        let ghost out_pre = out@;
        proof {
            assert(hrefs@[i as int]@ == hs[i as int]);
            assert(hs.take(i as int + 1).drop_last() =~= hs.take(i as int));
            assert(hs.take(i as int + 1).last() == hs[i as int]);
        }
        match build_absolute_url(domain, hrefs[i].as_str()) {
            Some(u) => {
                out.push(u);
                proof {
                    assert(out@.map_values(|u: CrawlUrl| u@.text) =~= out_pre.map_values(
                        |u: CrawlUrl| u@.text,
                    ).push(u@.text));
                }
            },
            None => {
            },
        }
        i = i + 1;
    }
    proof {
        assert(hs.take(n as int) =~= hs);
    }
    out
}

} // verus!
