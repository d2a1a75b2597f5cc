//! The decisions of site discovery and site cloning: which pages and assets
//! to fetch, in which order, and what is recorded of them. The caller
//! performs the network and file work and reports back.
use vstd::prelude::*;
pub use crate::crawl::CrawlOptions;
use crate::keyed::{strings_view, KeySet, UrlMap};
use crate::rewriter::{extract_page_links, html_page_links, refs_view, RefView};
use crate::text::{
    ascii_lowercase, cat, chars_of, decimal, decimal_string, has_infix, has_suffix,
    slice_has_infix, slice_has_suffix, to_ascii_lower, to_owned_string,
};
use crate::urls::{url_key, normalize, UrlParts, WebUrl, parsed_url, opt_url_view};

verus! {

/// A progress report of a clone.
pub struct ProgressEvent {
    pub phase: String,
    pub message: String,
    pub pages_done: usize,
    pub pages_total: usize,
    pub assets_done: usize,
    pub assets_known: usize,
}

/// A page found by discovery, with its link depth from the start page.
pub struct DiscoveredPage {
    pub url: String,
    pub depth: usize,
}

/// The outcome of discovery.
pub struct DiscoverResult {
    pub start_url: String,
    pub pages: Vec<DiscoveredPage>,
    pub truncated: bool,
    pub message: String,
}

/// Settings of discovery. Progress reporting and cancellation are the
/// caller's.
pub struct DiscoverOptions {
    pub start_url: String,
    /// Safety cap so discovery cannot run forever.
    pub max_pages_cap: usize,
    pub max_depth: usize,
    pub follow_external_pages: bool,
    pub block_tracking: bool,
    pub timeout_secs: u64,
    pub user_agent: String,
}

/// Why discovery or cloning stopped.
pub enum CrawlError {
    /// The start URL does not parse.
    InvalidStartUrl(String),
    /// The start URL has no host.
    NoHost,
    /// Resuming was asked for but no saved job was found.
    NoSavedJob,
    /// Discovery was cancelled.
    DiscoveryCancelled,
    /// The clone was cancelled.
    Cancelled,
    /// No page could be downloaded; the details of each failure.
    NoPages(String),
}

/// The message shown for an error.
pub open spec fn crawl_error_text(e: CrawlError) -> Seq<char> {
    match e {
        CrawlError::InvalidStartUrl(u) => "آدرس «"@ + u@ + "» معتبر نیست."@,
        CrawlError::NoHost => "آدرس شروع میزبان (host) ندارد."@,
        CrawlError::NoSavedJob => "فایل ادامه دانلود (.webcloner-job.json) پیدا نشد."@,
        CrawlError::DiscoveryCancelled => "کشف آدرس‌ها لغو شد."@,
        CrawlError::Cancelled => "دانلود توسط کاربر لغو شد."@,
        CrawlError::NoPages(d) => "هیچ صفحه‌ای دانلود نشد.\n"@ + d@,
    }
}

impl CrawlError {
    /// The message shown for the error.
    pub fn message(&self) -> (r: String)
        ensures
            r@ == crawl_error_text(*self),
    {
        match self {
            CrawlError::InvalidStartUrl(u) => {
                let a = cat("آدرس «", u.as_str());
                cat(a.as_str(), "» معتبر نیست.")
            },
            CrawlError::NoHost => to_owned_string("آدرس شروع میزبان (host) ندارد."),
            CrawlError::NoSavedJob => to_owned_string(
                "فایل ادامه دانلود (.webcloner-job.json) پیدا نشد.",
            ),
            CrawlError::DiscoveryCancelled => to_owned_string("کشف آدرس‌ها لغو شد."),
            CrawlError::Cancelled => to_owned_string("دانلود توسط کاربر لغو شد."),
            CrawlError::NoPages(d) => cat("هیچ صفحه‌ای دانلود نشد.\n", d.as_str()),
        }
    }
}

// ---------------------------------------------------------------------------
// Tracking filter.
/// Hosts of analytics and advertising services.
pub open spec fn tracking_hosts() -> Seq<Seq<char>> {
    seq![
        "www.google-analytics.com"@,
        "google-analytics.com"@,
        "www.googletagmanager.com"@,
        "googletagmanager.com"@,
        "stats.g.doubleclick.net"@,
        "www.googleadservices.com"@,
        "pagead2.googlesyndication.com"@,
        "connect.facebook.net"@,
        "www.facebook.com"@,
        "static.hotjar.com"@,
        "script.hotjar.com"@,
        "cdn.segment.com"@,
        "api.segment.io"@,
        "cdn.mouseflow.com"@,
        "snap.licdn.com"@,
        "bat.bing.com"@,
        "analytics.tiktok.com"@,
        "mc.yandex.ru"@,
        "cdn.clarity.ms"@,
    ]
}

/// `host` is `h` or a subdomain of it.
pub open spec fn host_matches(host: Seq<char>, h: Seq<char>) -> bool {
    host == h || has_suffix(host, seq!['.'] + h)
}

/// A (lowercased) host that is a tracking host or a subdomain of one.
pub open spec fn is_tracking_host(host: Seq<char>) -> bool {
    exists|i: int| 0 <= i < tracking_hosts().len() && #[trigger] host_matches(host, tracking_hosts()[i])
}

/// A URL of a known tracker: its (lowercased) host is one of the tracking
/// hosts or a subdomain of one, or its (lowercased) path looks like an
/// analytics script or a Facebook pixel.
pub open spec fn is_tracking(u: UrlParts) -> bool {
    let host = ascii_lowercase(
        if u.host is Some {
            u.host->0
        } else {
            Seq::empty()
        },
    );
    let path = ascii_lowercase(u.path);
    is_tracking_host(host) || has_infix(path, "/analytics.js"@) || has_infix(path, "gtag/js"@) || (has_infix(
        path,
        "facebook"@,
    ) && has_infix(path, "pixel"@))
}

fn tracking_host_list() -> (v: Vec<&'static str>)
    ensures
        v@.map_values(|s: &str| s@) == tracking_hosts(),
{
    let v = vec![
        "www.google-analytics.com",
        "google-analytics.com",
        "www.googletagmanager.com",
        "googletagmanager.com",
        "stats.g.doubleclick.net",
        "www.googleadservices.com",
        "pagead2.googlesyndication.com",
        "connect.facebook.net",
        "www.facebook.com",
        "static.hotjar.com",
        "script.hotjar.com",
        "cdn.segment.com",
        "api.segment.io",
        "cdn.mouseflow.com",
        "snap.licdn.com",
        "bat.bing.com",
        "analytics.tiktok.com",
        "mc.yandex.ru",
        "cdn.clarity.ms",
    ];
    assert(v@.map_values(|s: &str| s@) =~= tracking_hosts());
    v
}

/// Is this a URL of a known analytics or advertising tracker?
pub fn is_tracking_url(url: &WebUrl) -> (r: bool)
    ensures
        r == is_tracking(url@),
{
    let host_raw: Vec<char> = match url.host_str() {
        Some(h) => chars_of(h),
        None => Vec::new(),
    };
    proof {
        if url@.host is None {
            assert(host_raw@ =~= Seq::<char>::empty());
        }
    }
    let host = to_ascii_lower(host_raw.as_slice());
    let path = to_ascii_lower(chars_of(url.path()).as_slice());
    assert(host@ == ascii_lowercase(
        if url@.host is Some {
            url@.host->0
        } else {
            Seq::<char>::empty()
        },
    ));
    let hosts = tracking_host_list();
    let ghost hv = hosts@.map_values(|s: &str| s@);
    let mut i: usize = 0;
    while i < hosts.len()
        invariant
            i <= hosts.len(),
            hv == hosts@.map_values(|s: &str| s@),
            hv == tracking_hosts(),
            host@ == ascii_lowercase(
                if url@.host is Some {
                    url@.host->0
                } else {
                    Seq::<char>::empty()
                },
            ),
            forall|j: int| 0 <= j < i ==> !host_matches(host@, hv[j]),
        decreases hosts.len() - i,
    {
        let h = chars_of(hosts[i]);
        assert(h@ == hv[i as int]);
        let mut dh: Vec<char> = vec!['.'];
        crate::text::append_chars(&mut dh, h.as_slice());
        assert(dh@ =~= seq!['.'] + h@);
        let eq = h.len() == host.len() && crate::text::slice_has_prefix(
            host.as_slice(),
            h.as_slice(),
        );
        proof {
            if eq {
                assert(host@ =~= h@);
            }
            if host@ == h@ {
                assert(host@.subrange(0, h@.len() as int) =~= host@);
            }
        }
        if eq || slice_has_suffix(host.as_slice(), dh.as_slice()) {
            assert(host_matches(host@, tracking_hosts()[i as int]));
            assert(is_tracking_host(host@));
            return true;
        }
        i = i + 1;
    }
    let a = chars_of("/analytics.js");
    let g = chars_of("gtag/js");
    let f = chars_of("facebook");
    let px = chars_of("pixel");
    slice_has_infix(path.as_slice(), a.as_slice()) || slice_has_infix(path.as_slice(), g.as_slice())
        || (slice_has_infix(path.as_slice(), f.as_slice()) && slice_has_infix(
        path.as_slice(),
        px.as_slice(),
    ))
}

// ---------------------------------------------------------------------------
// Which links and assets are followed.
pub open spec fn is_web_scheme(s: Seq<char>) -> bool {
    s == "http"@ || s == "https"@
}

fn web_scheme(url: &WebUrl) -> (r: bool)
    ensures
        r == is_web_scheme(url@.scheme),
{
    let s = url.scheme();
    crate::keyed::same_str(s, "http") || crate::keyed::same_str(s, "https")
}

/// The URL's host is `site`.
pub open spec fn on_site(u: UrlParts, site: Seq<char>) -> bool {
    u.host == Some(site)
}

fn is_on_site(url: &WebUrl, site: &str) -> (r: bool)
    ensures
        r == on_site(url@, site@),
{
    match url.host_str() {
        Some(h) => crate::keyed::same_str(h, site),
        None => false,
    }
}

/// A page link worth crawling: not a tracker (when blocking), on the site
/// (unless external pages are followed), and over HTTP(S).
pub open spec fn follows_link(
    u: UrlParts,
    site: Seq<char>,
    block_tracking: bool,
    follow_external: bool,
) -> bool {
    !(block_tracking && is_tracking(u)) && (on_site(u, site) || follow_external) && is_web_scheme(
        u.scheme,
    )
}

/// An asset worth downloading: over HTTP(S), and on the site unless
/// external assets are included.
pub open spec fn admits_asset(u: UrlParts, site: Seq<char>, include_external: bool) -> bool {
    is_web_scheme(u.scheme) && (on_site(u, site) || include_external)
}

/// Queues an asset URL once: admitted assets whose key is not yet pending
/// are added to the pending keys and to the download queue.
pub(crate) fn queue_asset(
    url: &WebUrl,
    site_host: &str,
    include_external: bool,
    pending: &mut KeySet,
    queue: &mut Vec<WebUrl>,
)
    requires
        old(pending).wf(),
    ensures
        final(pending).wf(),
        admits_asset(url@, site_host@, include_external) && !old(pending)@.contains(url_key(url@))
            ==> final(pending)@ == old(pending)@.push(url_key(url@)) && urls_view(final(queue)@)
            == urls_view(old(queue)@).push(url@),
        !(admits_asset(url@, site_host@, include_external) && !old(pending)@.contains(
            url_key(url@),
        )) ==> final(pending)@ == old(pending)@ && final(queue)@ == old(queue)@,
{
    if !web_scheme(url) {
        return;
    }
    let same = is_on_site(url, site_host);
    if !same && !include_external {
        return;
    }
    let key = normalize(url);
    if pending.insert(key.as_str()) {
        let ghost before = urls_view(queue@);
        queue.push(url.duplicate());
        assert(urls_view(queue@) =~= before.push(url@));
    }
}

pub open spec fn urls_view(v: Seq<WebUrl>) -> Seq<UrlParts> {
    v.map_values(|u: WebUrl| u@)
}

/// Links of a page, in order, that are followed and not yet seen: returns
/// the seen keys and the newly queued links.
pub open spec fn new_links(
    seen: Seq<Seq<char>>,
    links: Seq<RefView>,
    site: Seq<char>,
    block_tracking: bool,
    follow_external: bool,
) -> (Seq<Seq<char>>, Seq<UrlParts>)
    decreases links.len(),
{
    if links.len() == 0 {
        (seen, Seq::empty())
    } else {
        let (v, q) = new_links(seen, links.drop_last(), site, block_tracking, follow_external);
        let l = links.last().resolved;
        if follows_link(l, site, block_tracking, follow_external) && !v.contains(url_key(l)) {
            (v.push(url_key(l)), q.push(l))
        } else {
            (v, q)
        }
    }
}

pub open spec fn depth_entries(q: Seq<UrlParts>, depth: int) -> Seq<(UrlParts, int)> {
    q.map_values(|u: UrlParts| (u, depth))
}

pub open spec fn queue_view(v: Seq<(WebUrl, usize)>) -> Seq<(UrlParts, int)> {
    v.map_values(|e: (WebUrl, usize)| (e.0@, e.1 as int))
}

/// Adds the followed, unseen links of a page to a page queue at `depth`.
pub(crate) fn enqueue_links(
    links: &Vec<crate::rewriter::Reference>,
    site: &str,
    block_tracking: bool,
    follow_external: bool,
    seen: &mut KeySet,
    queue: &mut Vec<(WebUrl, usize)>,
    depth: usize,
)
    requires
        old(seen).wf(),
    ensures
        final(seen).wf(),
        final(seen)@ == new_links(
            old(seen)@,
            refs_view(links@),
            site@,
            block_tracking,
            follow_external,
        ).0,
        queue_view(final(queue)@) == queue_view(old(queue)@) + depth_entries(
            new_links(old(seen)@, refs_view(links@), site@, block_tracking, follow_external).1,
            depth as int,
        ),
{
    let ghost lv = refs_view(links@);
    let ghost s0 = seen@;
    let ghost q0 = queue_view(queue@);
    let mut i: usize = 0;
    while i < links.len()
        invariant
            i <= links.len(),
            lv == refs_view(links@),
            seen.wf(),
            seen@ == new_links(s0, lv.take(i as int), site@, block_tracking, follow_external).0,
            queue_view(queue@) == q0 + depth_entries(
                new_links(s0, lv.take(i as int), site@, block_tracking, follow_external).1,
                depth as int,
            ),
        decreases links.len() - i,
    {
        let link = &links[i].resolved;
        assert(lv.take(i + 1).drop_last() =~= lv.take(i as int));
        assert(lv.take(i + 1).last() == links@[i as int]@);
        let ghost prevq = new_links(s0, lv.take(i as int), site@, block_tracking, follow_external).1;
        let tracked_out = block_tracking && is_tracking_url(link);
        if !tracked_out && (is_on_site(link, site) || follow_external) && web_scheme(link) {
            let key = normalize(link);
            if seen.insert(key.as_str()) {
                let ghost before = queue_view(queue@);
                queue.push((link.duplicate(), depth));
                assert(queue_view(queue@) =~= before.push((link@, depth as int)));
                assert(depth_entries(prevq.push(link@), depth as int) =~= depth_entries(
                    prevq,
                    depth as int,
                ).push((link@, depth as int)));
            }
        }
        i = i + 1;
    }
    assert(lv.take(lv.len() as int) =~= lv);
}

// ---------------------------------------------------------------------------
// Discovery.
/// Breadth-first discovery of the pages of a site.
pub struct Discovery {
    start_url: WebUrl,
    site_host: String,
    cap: usize,
    max_depth: usize,
    follow_external_pages: bool,
    block_tracking: bool,
    visited: KeySet,
    queue: Vec<(WebUrl, usize)>,
    head: usize,
    pages: Vec<DiscoveredPage>,
    truncated: bool,
    fetching: Ghost<Option<(UrlParts, int)>>,
}

pub struct DiscoveryView {
    pub start_url: UrlParts,
    pub site_host: Seq<char>,
    pub cap: int,
    pub max_depth: int,
    pub follow_external_pages: bool,
    pub block_tracking: bool,
    /// Keys of every page queued so far.
    pub visited: Seq<Seq<char>>,
    /// Pages waiting to be fetched, with their depth.
    pub waiting: Seq<(UrlParts, int)>,
    /// Pages found so far: serialisation and depth.
    pub pages: Seq<(Seq<char>, int)>,
    pub truncated: bool,
    /// The page `next_page` handed out and that is not recorded yet, with
    /// its depth.
    pub fetching: Option<(UrlParts, int)>,
}

pub open spec fn pages_view(v: Seq<DiscoveredPage>) -> Seq<(Seq<char>, int)> {
    v.map_values(|p: DiscoveredPage| (p.url@, p.depth as int))
}

impl View for Discovery {
    type V = DiscoveryView;

    closed spec fn view(&self) -> DiscoveryView {
        DiscoveryView {
            start_url: self.start_url@,
            site_host: self.site_host@,
            cap: self.cap as int,
            max_depth: self.max_depth as int,
            follow_external_pages: self.follow_external_pages,
            block_tracking: self.block_tracking,
            visited: self.visited@,
            waiting: queue_view(self.queue@).skip(self.head as int),
            pages: pages_view(self.pages@),
            truncated: self.truncated,
            fetching: self.fetching@,
        }
    }
}

/// The discovery messages.
pub open spec fn discover_start_message(start: Seq<char>) -> Seq<char> {
    "کشف صفحات از "@ + start + " ..."@
}

pub open spec fn discover_final_message(n: nat, cap: nat, truncated: bool) -> Seq<char> {
    if truncated {
        decimal(n) + " آدرس پیدا شد (به سقف ایمنی "@ + decimal(cap) + " رسید — لیست ناقص است)."@
    } else {
        decimal(n) + " آدرس صفحه برای کلون پیدا شد."@
    }
}

impl Discovery {
    /// Discovery keeps at most `cap` pages, never queues a key twice, and
    /// never queues a page deeper than the depth limit.
    pub closed spec fn wf(&self) -> bool {
        &&& self.visited.wf()
        &&& self.head <= self.queue.len()
        &&& self.cap >= 1
        &&& self.pages.len() <= self.cap
        &&& forall|i: int| 0 <= i < self.queue@.len() ==> #[trigger] self.queue@[i].1 <= self.max_depth
        &&& self.fetching@ matches Some((u, d)) ==> self.pages.len() < self.cap && d <= self.max_depth
    }

    /// Starts discovery from the start URL, which must parse and have a
    /// host; the cap is at least 1.
    pub fn start(opts: &DiscoverOptions) -> (r: Result<Discovery, CrawlError>)
        ensures
            parsed_url(opts.start_url@) is None <==> r matches Err(CrawlError::InvalidStartUrl(_)),
            parsed_url(opts.start_url@) matches Some(u) && u.host is None <==> r matches Err(
                CrawlError::NoHost,
            ),
            r matches Err(e) ==> e is InvalidStartUrl || e is NoHost,
            r matches Ok(d) ==> {
                let u = parsed_url(opts.start_url@)->0;
                &&& d.wf()
                &&& d@.start_url == u
                &&& d@.site_host == u.host->0
                &&& d@.cap == if opts.max_pages_cap >= 1 {
                    opts.max_pages_cap as int
                } else {
                    1
                }
                &&& d@.max_depth == opts.max_depth
                &&& d@.visited == seq![url_key(u)]
                &&& d@.waiting == seq![(u, 0int)]
                &&& d@.pages.len() == 0
                &&& !d@.truncated
                &&& d@.fetching is None
            },
    {
        let start = match WebUrl::parse(opts.start_url.as_str()) {
            Some(u) => u,
            None => {
                return Err(CrawlError::InvalidStartUrl(to_owned_string(opts.start_url.as_str())));
            },
        };
        let host = match start.host_str() {
            Some(h) => to_owned_string(h),
            None => {
                return Err(CrawlError::NoHost);
            },
        };
        let mut visited = KeySet::new();
        let key = normalize(&start);
        visited.insert(key.as_str());
        let first = start.duplicate();
        let mut queue: Vec<(WebUrl, usize)> = Vec::new();
        queue.push((first, 0));
        let d = Discovery {
            start_url: start,
            site_host: host,
            cap: if opts.max_pages_cap >= 1 {
                opts.max_pages_cap
            } else {
                1
            },
            max_depth: opts.max_depth,
            follow_external_pages: opts.follow_external_pages,
            block_tracking: opts.block_tracking,
            visited,
            queue,
            head: 0,
            pages: Vec::new(),
            truncated: false,
            fetching: Ghost(None),
        };
        assert(d@.visited =~= seq![url_key(d@.start_url)]);
        assert(queue_view(d.queue@).skip(0) =~= seq![(d@.start_url, 0int)]);
        assert(pages_view(d.pages@) =~= Seq::<(Seq<char>, int)>::empty());
        Ok(d)
    }

    /// The message that opens discovery.
    pub fn start_message(&self) -> (s: String)
        ensures
            s@ == discover_start_message(self@.start_url.href),
    {
        let a = cat("کشف صفحات از ", self.start_url.as_str());
        cat(a.as_str(), " ...")
    }

    /// The next page to fetch with its depth, taken from the front of the
    /// queue. A cancelled discovery fails once a page is taken; when the cap
    /// is reached with pages still waiting, discovery stops as truncated.
    pub fn next_page(&mut self, cancelled: bool) -> (r: Result<Option<(WebUrl, usize)>, CrawlError>)
        requires
            old(self).wf(),
        ensures
            final(self).wf(),
            old(self)@.waiting.len() == 0 ==> r == Ok::<Option<(WebUrl, usize)>, CrawlError>(None)
                && final(self)@ == old(self)@,
            old(self)@.waiting.len() > 0 && cancelled ==> r matches Err(CrawlError::DiscoveryCancelled),
            old(self)@.waiting.len() > 0 && !cancelled && old(self)@.pages.len() >= old(self)@.cap
                ==> (r matches Ok(None) && final(self)@.truncated),
            old(self)@.waiting.len() > 0 && !cancelled && old(self)@.pages.len() < old(self)@.cap
                ==> (r matches Ok(Some((u, d))) && (u@, d as int) == old(self)@.waiting[0]
                && final(self)@.waiting == old(self)@.waiting.drop_first() && final(self)@.pages
                == old(self)@.pages && final(self)@.visited == old(self)@.visited && d <= final(self)@.max_depth),
            old(self)@.waiting.len() > 0 ==> match r {
                Ok(Some((u, d))) => final(self)@.fetching == Some((u@, d as int)),
                _ => final(self)@.fetching is None,
            },
            final(self)@.start_url == old(self)@.start_url,
            final(self)@.site_host == old(self)@.site_host,
            final(self)@.cap == old(self)@.cap,
            final(self)@.max_depth == old(self)@.max_depth,
            final(self)@.block_tracking == old(self)@.block_tracking,
            final(self)@.follow_external_pages == old(self)@.follow_external_pages,
    {
        if self.head >= self.queue.len() {
            assert(queue_view(self.queue@).skip(self.head as int).len() == 0);
            return Ok(None);
        }
        let ghost w = queue_view(self.queue@).skip(self.head as int);
        let idx = self.head;
        self.head = self.head + 1;
        assert(queue_view(self.queue@).skip(self.head as int) =~= w.drop_first());
        self.fetching = Ghost(None);
        if cancelled {
            return Err(CrawlError::DiscoveryCancelled);
        }
        if self.pages.len() >= self.cap {
            self.truncated = true;
            return Ok(None);
        }
        let u = self.queue[idx].0.duplicate();
        let d = self.queue[idx].1;
        assert(w[0] == queue_view(self.queue@)[idx as int]);
        self.fetching = Ghost(Some((u@, d as int)));
        Ok(Some((u, d)))
    }

    /// Records the fetched HTML page that `next_page` handed out, at its
    /// `depth`, and, below the depth limit, queues its followed, unseen links
    /// one level deeper.
    pub fn record_page(&mut self, page_url: &WebUrl, depth: usize, html: &str)
        requires
            old(self).wf(),
            old(self)@.fetching == Some((page_url@, depth as int)),
        ensures
            final(self).wf(),
            final(self)@.fetching is None,
            old(self)@.pages.len() < old(self)@.cap,
            final(self)@.pages == old(self)@.pages.push((page_url@.href, depth as int)),
            depth >= old(self)@.max_depth ==> final(self)@.waiting == old(self)@.waiting
                && final(self)@.visited == old(self)@.visited,
            depth < old(self)@.max_depth ==> {
                let nl = new_links(
                    old(self)@.visited,
                    html_page_links(html@, page_url@),
                    old(self)@.site_host,
                    old(self)@.block_tracking,
                    old(self)@.follow_external_pages,
                );
                &&& final(self)@.visited == nl.0
                &&& final(self)@.waiting == old(self)@.waiting + depth_entries(
                    nl.1,
                    depth + 1,
                )
            },
            final(self)@.start_url == old(self)@.start_url,
            final(self)@.site_host == old(self)@.site_host,
            final(self)@.cap == old(self)@.cap,
            final(self)@.max_depth == old(self)@.max_depth,
            final(self)@.block_tracking == old(self)@.block_tracking,
            final(self)@.follow_external_pages == old(self)@.follow_external_pages,
            final(self)@.truncated == old(self)@.truncated,
    {
        let ghost pv = pages_view(self.pages@);
        self.fetching = Ghost(None);
        self.pages.push(DiscoveredPage { url: to_owned_string(page_url.as_str()), depth });
        assert(pages_view(self.pages@) =~= pv.push((page_url@.href, depth as int)));
        if depth >= self.max_depth {
            return;
        }
        let links = extract_page_links(html, page_url);
        let ghost qv = queue_view(self.queue@);
        let ghost head = self.head;
        enqueue_links(
            &links,
            self.site_host.as_str(),
            self.block_tracking,
            self.follow_external_pages,
            &mut self.visited,
            &mut self.queue,
            depth + 1,
        );
        proof {
            let nl = new_links(
                old(self)@.visited,
                refs_view(links@),
                self.site_host@,
                self.block_tracking,
                self.follow_external_pages,
            ).1;
            assert(queue_view(self.queue@) == qv + depth_entries(nl, depth + 1));
            assert(queue_view(self.queue@).skip(head as int) =~= qv.skip(head as int)
                + depth_entries(nl, depth + 1));
            assert forall|i: int| 0 <= i < self.queue@.len() implies #[trigger] self.queue@[i].1
                <= self.max_depth by {
                if i >= qv.len() {
                    assert(queue_view(self.queue@)[i] == depth_entries(nl, depth + 1)[i - qv.len()]);
                } else {
                    assert(queue_view(self.queue@)[i] == qv[i]);
                }
            }
        }
    }

    /// Every tenth page found, a progress message.
    pub fn progress_message(&self) -> (r: Option<String>)
        ensures
            r is Some <==> self@.pages.len() % 10 == 0,
            r matches Some(m) ==> m@ == "کشف شد: "@ + decimal(self@.pages.len()) + " صفحه..."@,
    {
        if self.pages.len() % 10 == 0 {
            let n = decimal_string(self.pages.len() as u64);
            let a = cat("کشف شد: ", n.as_str());
            Some(cat(a.as_str(), " صفحه..."))
        } else {
            None
        }
    }

    /// The outcome: the start URL, the pages found, whether the cap cut the
    /// list short, and the closing message.
    pub fn finish(self) -> (r: DiscoverResult)
        ensures
            r.start_url@ == self@.start_url.href,
            pages_view(r.pages@) == self@.pages,
            r.truncated == self@.truncated,
            r.message@ == discover_final_message(
                self@.pages.len(),
                self@.cap as nat,
                self@.truncated,
            ),
    {
        let n = decimal_string(self.pages.len() as u64);
        let message = if self.truncated {
            let c = decimal_string(self.cap as u64);
            let a = cat(n.as_str(), " آدرس پیدا شد (به سقف ایمنی ");
            let b = cat(a.as_str(), c.as_str());
            cat(b.as_str(), " رسید — لیست ناقص است).")
        } else {
            cat(n.as_str(), " آدرس صفحه برای کلون پیدا شد.")
        };
        DiscoverResult {
            start_url: to_owned_string(self.start_url.as_str()),
            pages: self.pages,
            truncated: self.truncated,
            message,
        }
    }
}

/// Discovery cannot run forever: it never holds more than its cap of
/// pages, the cap is at least 1, and a page handed out for fetching is
/// within the cap and the depth limit.
pub proof fn law_discovery_cap(d: &Discovery)
    requires
        d.wf(),
    ensures
        1 <= d@.cap,
        d@.pages.len() <= d@.cap,
        d@.fetching matches Some((u, k)) ==> d@.pages.len() < d@.cap && k <= d@.max_depth,
{
}

/// A subdomain of a tracking host is a tracking host too.
pub proof fn law_tracking_subdomains(host: Seq<char>, sub: Seq<char>)
    requires
        is_tracking_host(host),
    ensures
        is_tracking_host(sub + seq!['.'] + host),
{
    let i = choose|i: int| 0 <= i < tracking_hosts().len() && #[trigger] host_matches(host, tracking_hosts()[i]);
    let h = tracking_hosts()[i];
    let big = sub + seq!['.'] + host;
    let suf = seq!['.'] + h;
    if host == h {
        assert(big.subrange(big.len() - suf.len(), big.len() as int) =~= suf);
    } else {
        assert(has_suffix(host, suf));
        assert(big.subrange(big.len() - suf.len(), big.len() as int) =~= host.subrange(
            host.len() - suf.len(),
            host.len() as int,
        ));
    }
    assert(host_matches(big, tracking_hosts()[i]));
}

/// Discovery queues each page once: the keys of the pages it has queued
/// hold no key twice.
pub proof fn law_discovery_visits_once(d: &Discovery)
    requires
        d.wf(),
    ensures
        d@.visited.no_duplicates(),
{
}

/// Pages of other hosts are discovered when external pages are followed:
/// with `follow_external` set, every link over HTTP(S) that is not a
/// blocked tracker ends up among the seen keys, and a key that was not seen
/// before comes with a newly queued link.
pub proof fn law_external_links_followed(
    seen: Seq<Seq<char>>,
    links: Seq<RefView>,
    site: Seq<char>,
    block_tracking: bool,
    i: int,
)
    requires
        0 <= i < links.len(),
        is_web_scheme(links[i].resolved.scheme),
        !(block_tracking && is_tracking(links[i].resolved)),
    ensures
        new_links(seen, links, site, block_tracking, true).0.contains(url_key(links[i].resolved)),
        !seen.contains(url_key(links[i].resolved)) ==> exists|j: int|
            0 <= j < new_links(seen, links, site, block_tracking, true).1.len() && url_key(
                #[trigger] new_links(seen, links, site, block_tracking, true).1[j],
            ) == url_key(links[i].resolved),
    decreases links.len(),
{
    let k = url_key(links[i].resolved);
    lemma_new_keys_have_links(seen, links, site, block_tracking, true, k);
    let vq = new_links(seen, links.drop_last(), site, block_tracking, true);
    let v = vq.0;
    let res = new_links(seen, links, site, block_tracking, true);
    let l = links.last().resolved;
    if i < links.len() - 1 {
        assert(links.drop_last()[i] == links[i]);
        law_external_links_followed(seen, links.drop_last(), site, block_tracking, i);
        if follows_link(l, site, block_tracking, true) && !v.contains(url_key(l)) {
            let m = choose|m: int| 0 <= m < v.len() && v[m] == k;
            assert(res.0[m] == k);
        } else {
            assert(res == vq);
        }
    } else {
        if !v.contains(k) {
            assert(res.0[v.len() as int] == k);
        } else {
            assert(res == vq);
        }
    }
}

/// A key that `new_links` adds to the seen keys comes with a queued link
/// of that key.
proof fn lemma_new_keys_have_links(
    seen: Seq<Seq<char>>,
    links: Seq<RefView>,
    site: Seq<char>,
    block_tracking: bool,
    follow_external: bool,
    k: Seq<char>,
)
    ensures
        new_links(seen, links, site, block_tracking, follow_external).0.contains(k) && !seen.contains(k)
            ==> exists|j: int|
            0 <= j < new_links(seen, links, site, block_tracking, follow_external).1.len() && url_key(
                #[trigger] new_links(seen, links, site, block_tracking, follow_external).1[j],
            ) == k,
    decreases links.len(),
{
    if links.len() > 0 {
        lemma_new_keys_have_links(seen, links.drop_last(), site, block_tracking, follow_external, k);
        let vq = new_links(seen, links.drop_last(), site, block_tracking, follow_external);
        let v = vq.0;
        let q = vq.1;
        let res = new_links(seen, links, site, block_tracking, follow_external);
        let l = links.last().resolved;
        if res.0.contains(k) && !seen.contains(k) {
            if follows_link(l, site, block_tracking, follow_external) && !v.contains(url_key(l)) {
                assert(res == (v.push(url_key(l)), q.push(l)));
                if v.contains(k) {
                    let j = choose|j: int| 0 <= j < q.len() && url_key(#[trigger] q[j]) == k;
                    assert(res.1[j] == q[j]);
                } else {
                    let m = choose|m: int| 0 <= m < res.0.len() && res.0[m] == k;
                    assert(m == v.len());
                    assert(res.1[q.len() as int] == l);
                }
            } else {
                assert(res == vq);
                let j = choose|j: int| 0 <= j < q.len() && url_key(#[trigger] q[j]) == k;
                assert(res.1[j] == q[j]);
            }
        }
    }
}

/// Only followed links are queued: every page `new_links` queues is over
/// HTTP(S), is not a blocked tracker, and is on the site unless external
/// pages are followed.
pub proof fn law_only_followed_links_queued(
    seen: Seq<Seq<char>>,
    links: Seq<RefView>,
    site: Seq<char>,
    block_tracking: bool,
    follow_external: bool,
)
    ensures
        forall|j: int|
            0 <= j < new_links(seen, links, site, block_tracking, follow_external).1.len() ==> {
                let u = #[trigger] new_links(seen, links, site, block_tracking, follow_external).1[j];
                &&& is_web_scheme(u.scheme)
                &&& !(block_tracking && is_tracking(u))
                &&& (follow_external || u.host == Some(site))
            },
    decreases links.len(),
{
    if links.len() > 0 {
        law_only_followed_links_queued(seen, links.drop_last(), site, block_tracking, follow_external);
        let vq = new_links(seen, links.drop_last(), site, block_tracking, follow_external);
        let res = new_links(seen, links, site, block_tracking, follow_external);
        let l = links.last().resolved;
        if follows_link(l, site, block_tracking, follow_external) && !vq.0.contains(url_key(l)) {
            assert(res.1 == vq.1.push(l));
            assert forall|j: int| 0 <= j < vq.1.len() implies #[trigger] res.1[j] == vq.1[j] by {}
        } else {
            assert(res == vq);
        }
    }
}

} // verus!
