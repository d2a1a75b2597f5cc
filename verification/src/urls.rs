//! Absolute URLs as the `url` crate parses, joins and serialises them.
//!
//! A [`WebUrl`] carries the parsed `url::Url` together with the plain parts
//! the rest of the library reads. It is only ever built by the wrappers of
//! this module, so the parts always describe the carried URL.
use vstd::prelude::*;

verus! {

#[verifier::external_type_specification]
#[verifier::external_body]
pub struct ExUrl(url::Url);

/// The parts of a URL that the library reads.
pub struct UrlParts {
    /// The full serialisation (`Url::as_str`).
    pub href: Seq<char>,
    pub scheme: Seq<char>,
    /// `Url::host_str`.
    pub host: Option<Seq<char>>,
    pub path: Seq<char>,
    pub query: Option<Seq<char>>,
    pub fragment: Option<Seq<char>>,
}

/// A parsed absolute URL.
pub struct WebUrl {
    href: String,
    scheme: String,
    host: Option<String>,
    path: String,
    query: Option<String>,
    fragment: Option<String>,
    inner: url::Url,
}

pub open spec fn opt_str_view(o: Option<String>) -> Option<Seq<char>> {
    match o {
        Some(s) => Some(s@),
        None => None,
    }
}

impl View for WebUrl {
    type V = UrlParts;

    closed spec fn view(&self) -> UrlParts {
        UrlParts {
            href: self.href@,
            scheme: self.scheme@,
            host: opt_str_view(self.host),
            path: self.path@,
            query: opt_str_view(self.query),
            fragment: opt_str_view(self.fragment),
        }
    }
}

pub open spec fn opt_url_view(o: Option<WebUrl>) -> Option<UrlParts> {
    match o {
        Some(u) => Some(u@),
        None => None,
    }
}

/// What `url::Url::parse` makes of a string (`None` on a parse error).
pub uninterp spec fn parsed_url(input: Seq<char>) -> Option<UrlParts>;

/// What `url::Url::join` makes of a base URL and a reference
/// (`None` on a parse error).
pub uninterp spec fn joined_url(base: UrlParts, input: Seq<char>) -> Option<UrlParts>;

/// What `url::Url::set_fragment(None)` makes of a URL.
pub uninterp spec fn url_without_fragment(u: UrlParts) -> UrlParts;

/// Calls `url::Url::parse`. The contract claims only that the result is a
/// function of the input string, whose parts are read off the parsed URL.
#[verifier::external_body]
fn url_parse(input: &str) -> (r: Option<WebUrl>)
    ensures
        opt_url_view(r) == parsed_url(input@),
{
    url::Url::parse(input).ok().map(|u| WebUrl {
        href: u.as_str().to_string(),
        scheme: u.scheme().to_string(),
        host: u.host_str().map(|h| h.to_string()),
        path: u.path().to_string(),
        query: u.query().map(|q| q.to_string()),
        fragment: u.fragment().map(|f| f.to_string()),
        inner: u,
    })
}

/// Calls `url::Url::join` on the carried URL. The contract claims only that
/// the result is a function of the base's parts (a `url::Url` is determined
/// by its serialisation) and of the reference.
#[verifier::external_body]
fn url_join(base: &WebUrl, input: &str) -> (r: Option<WebUrl>)
    ensures
        opt_url_view(r) == joined_url(base@, input@),
{
    base.inner.join(input).ok().map(|u| WebUrl {
        href: u.as_str().to_string(),
        scheme: u.scheme().to_string(),
        host: u.host_str().map(|h| h.to_string()),
        path: u.path().to_string(),
        query: u.query().map(|q| q.to_string()),
        fragment: u.fragment().map(|f| f.to_string()),
        inner: u,
    })
}

/// Calls `url::Url::set_fragment(None)` on a copy of the carried URL. As its
/// source shows, that truncates the serialisation at the fragment and leaves
/// the scheme, host and query as they were; the contract states those facts
/// and names the rest.
#[verifier::external_body]
fn url_strip_fragment(u: &WebUrl) -> (r: WebUrl)
    ensures
        r@ == url_without_fragment(u@),
        r@.fragment is None,
        r@.scheme == u@.scheme,
        r@.host == u@.host,
        r@.query == u@.query,
{
    let mut v = u.inner.clone();
    v.set_fragment(None);
    WebUrl {
        href: v.as_str().to_string(),
        scheme: v.scheme().to_string(),
        host: v.host_str().map(|h| h.to_string()),
        path: v.path().to_string(),
        query: v.query().map(|q| q.to_string()),
        fragment: v.fragment().map(|f| f.to_string()),
        inner: v,
    }
}

/// Calls `Clone::clone` for `url::Url` (and `String`), which copies the URL
/// unchanged.
#[verifier::external_body]
fn url_clone(u: &WebUrl) -> (r: WebUrl)
    ensures
        r@ == u@,
{
    WebUrl {
        href: u.href.clone(),
        scheme: u.scheme.clone(),
        host: u.host.clone(),
        path: u.path.clone(),
        query: u.query.clone(),
        fragment: u.fragment.clone(),
        inner: u.inner.clone(),
    }
}

impl WebUrl {
    /// Parses an absolute URL (`None` when it does not parse).
    pub fn parse(input: &str) -> (r: Option<WebUrl>)
        ensures
            opt_url_view(r) == parsed_url(input@),
    {
        url_parse(input)
    }

    /// Resolves a reference against this URL (`None` when it does not parse).
    pub fn join(&self, input: &str) -> (r: Option<WebUrl>)
        ensures
            opt_url_view(r) == joined_url(self@, input@),
    {
        url_join(self, input)
    }

    /// The same URL without its fragment.
    pub fn without_fragment(&self) -> (r: WebUrl)
        ensures
            r@ == url_without_fragment(self@),
            r@.fragment is None,
            r@.scheme == self@.scheme,
            r@.host == self@.host,
            r@.query == self@.query,
    {
        url_strip_fragment(self)
    }

    pub fn duplicate(&self) -> (r: WebUrl)
        ensures
            r@ == self@,
    {
        url_clone(self)
    }

    /// The full serialisation.
    pub fn as_str(&self) -> (r: &str)
        ensures
            r@ == self@.href,
    {
        self.href.as_str()
    }

    pub fn scheme(&self) -> (r: &str)
        ensures
            r@ == self@.scheme,
    {
        self.scheme.as_str()
    }

    pub fn host_str(&self) -> (r: Option<&str>)
        ensures
            r is Some <==> self@.host is Some,
            r is Some ==> r->0@ == self@.host->0,
    {
        match &self.host {
            Some(h) => Some(h.as_str()),
            None => None,
        }
    }

    pub fn path(&self) -> (r: &str)
        ensures
            r@ == self@.path,
    {
        self.path.as_str()
    }

    pub fn query(&self) -> (r: Option<&str>)
        ensures
            r is Some <==> self@.query is Some,
            r is Some ==> r->0@ == self@.query->0,
    {
        match &self.query {
            Some(q) => Some(q.as_str()),
            None => None,
        }
    }
}

/// The key under which a URL is remembered: its serialisation without the
/// fragment.
pub open spec fn url_key(u: UrlParts) -> Seq<char> {
    url_without_fragment(u).href
}

/// The serialisation of `url` without its fragment.
pub fn normalize(url: &WebUrl) -> (r: String)
    ensures
        r@ == url_key(url@),
{
    let u = url.without_fragment();
    let s = u.as_str();
    crate::text::to_owned_string(s)
}

} // verus!
