//! The robots.txt gate.
//!
//! Rule matching itself is the `robotstxt` crate's work; the crawler only
//! needs its verdict, which depends on nothing but the rules text and the
//! URL. The crawler always matches on behalf of every agent (`*`).

use vstd::prelude::*;
use crate::urls::CrawlUrl;

verus! {

/// Whether the robots rules in `robots` allow the user agent `*` to fetch
/// the URL with serialization `url`, as `robotstxt` decides it.
pub uninterp spec fn robots_allowed(robots: Seq<char>, url: Seq<char>) -> bool;

/// The rules texts `robotstxt`'s parser is known to handle without fault.
/// Its line reader caps a line at 16664 bytes, and past the cap it counts
/// skipped characters but advances byte offsets by that count, so an
/// over-long line with multi-byte characters makes a later slice land inside
/// a character and panic. All-ASCII text cannot desynchronize the offsets,
/// and text of fewer than 16664 / 4 characters (at most 4 bytes each) cannot
/// reach the cap.
pub open spec fn robots_text_safe(s: Seq<char>) -> bool {
    (forall|i: int| 0 <= i < s.len() ==> (s[i] as u32) < 128) || 4 * s.len() < 16664
}

/// Relies on `robotstxt`'s `RobotsMatcher::allowed_by_robots` with the single
/// user agent `*`: the verdict depends on the rules text and the URL alone,
/// and an empty rules text disallows nothing. The precondition keeps out the
/// texts on which the crate's parser can panic (see `robots_text_safe`).
#[verifier::external_body]
pub(crate) fn allowed_by_robots(robots: &str, url: &CrawlUrl) -> (r: bool)
    requires
        robots_text_safe(robots@),
    ensures
        r == robots_allowed(robots@, url@.text),
        robots@.len() == 0 ==> r,
{
    let mut matcher = robotstxt::DefaultMatcher::default();
    matcher.allowed_by_robots(robots, vec!["*"], url.text())
}

} // verus!
