//! A plain-value model of absolute URLs.
//!
//! The crawler only ever reads three things off a URL: its full
//! serialization, its host domain (the dedup partition), and the part after
//! the authority (path + query + fragment, the dedup key within a domain).
//! `CrawlUrl` holds exactly those as plain strings; the `url` crate does the
//! parsing, resolving and normalizing behind trusted wrappers.

use vstd::prelude::*;

verus! {

/// What `url::Url::parse` returns for a string: the normalized serialization
/// of the parsed URL exactly when the string parses as an absolute URL,
/// `None` when it does not.
pub uninterp spec fn url_serialization_of(s: Seq<char>) -> Option<Seq<char>>;

/// Whether `url::Url::parse` rejects a string as a relative reference
/// (`ParseError::RelativeUrlWithoutBase`), as opposed to any other failure.
pub uninterp spec fn url_is_relative(s: Seq<char>) -> bool;

/// What `url::Url::domain` returns for the URL with the given serialization:
/// the host exactly when it is a domain name (not an IP address, not absent).
pub uninterp spec fn url_host_of(s: Seq<char>) -> Option<Seq<char>>;

/// What `url::Url::scheme` returns for the URL with the given serialization.
pub uninterp spec fn url_scheme_of(s: Seq<char>) -> Seq<char>;

/// What `url::Url::port` returns for the URL with the given serialization:
/// the explicit port, absent when none is given or it is the scheme's
/// default (the serialization never carries a default port).
pub uninterp spec fn url_port_of(s: Seq<char>) -> Option<u16>;

/// What indexing the URL with the given serialization by
/// `url::Position::BeforePath..` returns: its path + query + fragment.
pub uninterp spec fn url_key_of(s: Seq<char>) -> Seq<char>;

/// What `url::Url::join` returns when `rel` is resolved against the URL whose
/// serialization is `base`: the serialization of the joined URL on success.
pub uninterp spec fn url_join_of(base: Seq<char>, rel: Seq<char>) -> Option<Seq<char>>;

/// The plain values the crawler reads off one absolute URL.
pub struct UrlParts {
    pub text: Seq<char>,
    pub scheme: Seq<char>,
    pub host: Option<Seq<char>>,
    pub port: Option<u16>,
    pub key: Seq<char>,
}

/// Whether two URLs share one authority: same scheme, same host domain and
/// same (explicit) port. The session's domain restriction compares this.
pub open spec fn same_authority(u: UrlParts, d: UrlParts) -> bool {
    u.scheme == d.scheme && u.host == d.host && u.port == d.port
}

/// An absolute URL, reduced to the parts the crawler works with: the
/// serialization, the authority (scheme, host domain, port) and the
/// within-domain dedup key.
#[derive(Debug)]
pub struct CrawlUrl {
    text: String,
    scheme: String,
    host: Option<String>,
    port: Option<u16>,
    key: String,
}

impl View for CrawlUrl {
    type V = UrlParts;

    closed spec fn view(&self) -> UrlParts {
        UrlParts {
            text: self.text@,
            scheme: self.scheme@,
            host: match self.host {
                Some(h) => Some(h@),
                None => None,
            },
            port: self.port,
            key: self.key@,
        }
    }
}

impl CrawlUrl {
    /// The parts agree with what the `url` crate computes for `text`:
    /// `text` is a normalized absolute-URL serialization, and the other
    /// fields are its scheme, host domain, port and path + query + fragment.
    pub open spec fn wf(&self) -> bool {
        &&& url_serialization_of(self@.text) == Some(self@.text)
        &&& self@.scheme == url_scheme_of(self@.text)
        &&& self@.host == url_host_of(self@.text)
        &&& self@.port == url_port_of(self@.text)
        &&& self@.key == url_key_of(self@.text)
    }

    /// The full serialization.
    pub fn text(&self) -> (r: &String)
        ensures
            r@ == self@.text,
    {
        &self.text
    }

    /// The scheme.
    pub fn scheme(&self) -> (r: &String)
        ensures
            r@ == self@.scheme,
    {
        &self.scheme
    }

    /// The explicit port, if one differs from the scheme's default.
    pub fn port(&self) -> (r: Option<u16>)
        ensures
            r == self@.port,
    {
        self.port
    }

    /// The host domain, if the host is a domain name.
    pub fn host(&self) -> (r: &Option<String>)
        ensures
            self@.host == match *r {
                Some(h) => Some(h@),
                None => None::<Seq<char>>,
            },
    {
        &self.host
    }

    /// The path + query + fragment: the dedup key within a domain.
    pub fn key(&self) -> (r: &String)
        ensures
            r@ == self@.key,
    {
        &self.key
    }

    /// Parse a string as an absolute URL.
    pub fn parse(s: &str) -> (r: Option<CrawlUrl>)
        ensures
            match r {
                Some(u) => url_serialization_of(s@) == Some(u@.text) && u.wf(),
                None => url_serialization_of(s@) is None,
            },
    {
        match parse_url_raw(s) {
            UrlParseOutcome::Absolute(u) => Some(u),
            UrlParseOutcome::Relative => None,
            UrlParseOutcome::Invalid => None,
        }
    }
}

impl Clone for CrawlUrl {
    fn clone(&self) -> (r: Self)
        ensures
            r@ == self@,
            r.wf() <==> self.wf(),
    {
        CrawlUrl {
            text: self.text.clone(),
            scheme: self.scheme.clone(),
            host: match &self.host {
                Some(h) => Some(h.clone()),
                None => None,
            },
            port: self.port,
            key: self.key.clone(),
        }
    }
}

/// How `url::Url::parse` classified a string.
pub(crate) enum UrlParseOutcome {
    /// An absolute URL.
    Absolute(CrawlUrl),
    /// A relative reference, resolvable against a base.
    Relative,
    /// Not a URL at all.
    Invalid,
}

/// Relies on `url::Url::parse`, `url::Url::scheme`, `url::Url::domain`,
/// `url::Url::port` and indexing by `url::Position::BeforePath`: parses an
/// absolute URL and takes its serialization, authority parts and
/// path + query + fragment.
#[verifier::external_body]
fn parse_url_raw(s: &str) -> (r: UrlParseOutcome)
    ensures
        match r {
            UrlParseOutcome::Absolute(u) => url_serialization_of(s@) == Some(u@.text)
                && u@.scheme == url_scheme_of(u@.text) && u@.host == url_host_of(u@.text)
                && u@.port == url_port_of(u@.text) && u@.key == url_key_of(u@.text) && u.wf(),
            UrlParseOutcome::Relative => url_serialization_of(s@) is None && url_is_relative(s@),
            UrlParseOutcome::Invalid => url_serialization_of(s@) is None && !url_is_relative(s@),
        },
{
    match url::Url::parse(s) {
        Ok(u) => UrlParseOutcome::Absolute(CrawlUrl {
            text: u.as_str().to_string(),
            scheme: u.scheme().to_string(),
            host: u.domain().map(|d| d.to_string()),
            port: u.port(),
            key: u[url::Position::BeforePath..].to_string(),
        }),
        Err(url::ParseError::RelativeUrlWithoutBase) => UrlParseOutcome::Relative,
        Err(_) => UrlParseOutcome::Invalid,
    }
}

/// Relies on `url::Url::join` (after re-parsing the base's serialization,
/// which the `wf` precondition keeps valid): resolves `rel` against `base`.
#[verifier::external_body]
fn join_url_raw(base: &CrawlUrl, rel: &str) -> (r: Option<CrawlUrl>)
    requires
        base.wf(),
    ensures
        match r {
            Some(u) => url_join_of(base@.text, rel@) == Some(u@.text) && u.wf(),
            None => url_join_of(base@.text, rel@) is None,
        },
{
    let parsed = match url::Url::parse(&base.text) {
        Ok(b) => b.join(rel),
        Err(e) => Err(e),
    };
    match parsed {
        Ok(u) => Some(CrawlUrl {
            text: u.as_str().to_string(),
            scheme: u.scheme().to_string(),
            host: u.domain().map(|d| d.to_string()),
            port: u.port(),
            key: u[url::Position::BeforePath..].to_string(),
        }),
        Err(_) => None,
    }
}

/// Resolve `rel` against the URL whose serialization is `base`.
pub fn join_url(base: &CrawlUrl, rel: &str) -> (r: Option<CrawlUrl>)
    requires
        base.wf(),
    ensures
        match r {
            Some(u) => url_join_of(base@.text, rel@) == Some(u@.text) && u.wf(),
            None => url_join_of(base@.text, rel@) is None,
        },
{
    join_url_raw(base, rel)
}

/// Where an anchor target leads from a page of `base`: itself if it is an
/// absolute URL, its join against `base` if it is a relative reference,
/// nowhere if it is malformed.
pub open spec fn resolved_url_of(base: Seq<char>, href: Seq<char>) -> Option<Seq<char>> {
    if url_serialization_of(href) is Some {
        url_serialization_of(href)
    } else if url_is_relative(href) {
        url_join_of(base, href)
    } else {
        None
    }
}

/// Turn an anchor target found on a page of `domain` into an absolute URL;
/// malformed targets are dropped.
pub fn build_absolute_url(domain: &CrawlUrl, href: &str) -> (r: Option<CrawlUrl>)
    requires
        domain.wf(),
    ensures
        match r {
            Some(u) => resolved_url_of(domain@.text, href@) == Some(u@.text) && u.wf(),
            None => resolved_url_of(domain@.text, href@) is None,
        },
{
    match parse_url_raw(href) {
        UrlParseOutcome::Absolute(u) => Some(u),
        UrlParseOutcome::Relative => join_url_raw(domain, href),
        UrlParseOutcome::Invalid => None,
    }
}

} // verus!
