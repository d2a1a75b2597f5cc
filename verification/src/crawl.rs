//! The decisions of a clone: which pages and assets are fetched, what is
//! remembered of them, how the saved documents are rewritten, and what a
//! checkpoint records. The caller fetches, reads and writes, and reports each
//! outcome back.
use vstd::prelude::*;
use crate::downloader::{
    admits_asset, is_web_scheme, depth_entries, follows_link, is_tracking, is_tracking_url, new_links,
    queue_view, urls_view, CrawlError, enqueue_links, queue_asset,
};
use crate::job_state::{JobOptionsSnapshot, JobState};
use crate::keyed::{strings_view, KeySet, UrlMap};
use crate::rewriter::{
    css_refs, extract_css_asset_refs, extract_html_asset_refs, extract_page_links,
    html_asset_refs, html_page_links, refs_view, rewrite_references, RefView,
    Reference,
};
use crate::text::{cat, chars_of, string_from_chars, to_owned_string};
use crate::urls::{normalize, opt_url_view, parsed_url, url_key, UrlParts, WebUrl};
use crate::utils::{local_path, relative, relative_path, url_to_local_path};

verus! {

/// Settings of a clone. Progress reporting and cancellation are the
/// caller's.
pub struct CrawlOptions {
    pub start_url: String,
    pub out_dir: String,
    pub max_pages: usize,
    pub max_depth: usize,
    pub include_external_assets: bool,
    pub follow_external_pages: bool,
    pub concurrency: usize,
    pub timeout_secs: u64,
    pub user_agent: String,
    pub block_tracking: bool,
    pub report_broken_links: bool,
    /// If set, only these pages are downloaded (a confirmed discovery list).
    pub planned_pages: Option<Vec<String>>,
    /// Continue from the checkpoint in `out_dir`.
    pub resume: bool,
}

/// A downloaded page or stylesheet: its URL, the relative file it is saved
/// to, and its text as fetched.
pub struct Document {
    pub url: WebUrl,
    pub rel_path: String,
    pub text: String,
}

pub open spec fn docs_view(v: Seq<Document>) -> Seq<(UrlParts, Seq<char>, Seq<char>)> {
    v.map_values(|d: Document| (d.url@, d.rel_path@, d.text@))
}

/// What the caller does next in the page phase.
pub enum PageStep {
    /// Fetch this page (found at this depth).
    Fetch(WebUrl, usize),
    /// This page was saved by an earlier run: read it back from this file.
    Reload(WebUrl, String),
    /// The page phase was cancelled.
    Cancelled,
    /// The page phase is over.
    Finished,
}

/// The state of a clone.
pub struct Crawl {
    start_url: WebUrl,
    site_host: String,
    max_pages: usize,
    max_depth: usize,
    include_external: bool,
    follow_external: bool,
    block_tracking: bool,
    done_pages: KeySet,
    done_assets: KeySet,
    pending: KeySet,
    asset_queue: Vec<WebUrl>,
    url_map: UrlMap,
    pages: Vec<Document>,
    css: Vec<Document>,
    errors: Vec<String>,
    planned: Option<Vec<WebUrl>>,
    planned_next: usize,
    waiting: Vec<(WebUrl, usize)>,
    head: usize,
    visited: KeySet,
    assets_done: usize,
    handed: Ghost<Option<StepView>>,
    batch: Ghost<Seq<UrlParts>>,
}

pub struct CrawlView {
    pub start_url: UrlParts,
    pub site_host: Seq<char>,
    pub max_pages: int,
    pub max_depth: int,
    pub include_external: bool,
    pub follow_external: bool,
    pub block_tracking: bool,
    /// Keys of the pages saved so far.
    pub done_pages: Seq<Seq<char>>,
    /// Keys of the assets saved so far.
    pub done_assets: Seq<Seq<char>>,
    /// Keys of every asset ever queued.
    pub pending: Seq<Seq<char>>,
    /// Assets waiting for download.
    pub asset_queue: Seq<UrlParts>,
    /// Key of each saved URL and its relative file.
    pub url_map: Map<Seq<char>, Seq<char>>,
    pub pages: Seq<(UrlParts, Seq<char>, Seq<char>)>,
    pub css: Seq<(UrlParts, Seq<char>, Seq<char>)>,
    pub errors: Seq<Seq<char>>,
    /// The confirmed page list, if any, and how much of it was taken.
    pub planned: Option<Seq<UrlParts>>,
    pub planned_next: int,
    /// Pages waiting to be fetched when crawling by links.
    pub waiting: Seq<(UrlParts, int)>,
    /// Keys of every page queued when crawling by links.
    pub visited: Seq<Seq<char>>,
    pub assets_done: int,
    /// The page step `next_page` handed out (a fetch or a reload) that is
    /// not recorded yet.
    pub handed: Option<StepView>,
    /// The assets of the last batch `next_asset_batch` handed out.
    pub batch: Seq<UrlParts>,
}

pub open spec fn opt_urls_view(o: Option<Vec<WebUrl>>) -> Option<Seq<UrlParts>> {
    match o {
        Some(v) => Some(urls_view(v@)),
        None => None,
    }
}

impl View for Crawl {
    type V = CrawlView;

    closed spec fn view(&self) -> CrawlView {
        CrawlView {
            start_url: self.start_url@,
            site_host: self.site_host@,
            max_pages: self.max_pages as int,
            max_depth: self.max_depth as int,
            include_external: self.include_external,
            follow_external: self.follow_external,
            block_tracking: self.block_tracking,
            done_pages: self.done_pages@,
            done_assets: self.done_assets@,
            pending: self.pending@,
            asset_queue: urls_view(self.asset_queue@),
            url_map: self.url_map@,
            pages: docs_view(self.pages@),
            css: docs_view(self.css@),
            errors: strings_view(self.errors@),
            planned: opt_urls_view(self.planned),
            planned_next: self.planned_next as int,
            waiting: queue_view(self.waiting@).skip(self.head as int),
            visited: self.visited@,
            assets_done: self.assets_done as int,
            handed: self.handed@,
            batch: self.batch@,
        }
    }
}

// ---------------------------------------------------------------------------
// Specifications of the folds the clone performs.
/// A list of keys made into a set, first occurrences kept in order.
pub open spec fn keys_from(s: Seq<Seq<char>>, list: Seq<Seq<char>>) -> Seq<Seq<char>>
    decreases list.len(),
{
    if list.len() == 0 {
        s
    } else {
        let r = keys_from(s, list.drop_last());
        if r.contains(list.last()) {
            r
        } else {
            r.push(list.last())
        }
    }
}

/// A list of pairs inserted into a map in order.
pub open spec fn map_from(m: Map<Seq<char>, Seq<char>>, pairs: Seq<(Seq<char>, Seq<char>)>) -> Map<
    Seq<char>,
    Seq<char>,
>
    decreases pairs.len(),
{
    if pairs.len() == 0 {
        m
    } else {
        map_from(m, pairs.drop_last()).insert(pairs.last().0, pairs.last().1)
    }
}

/// Saved assets of a checkpoint not yet downloaded, as (pending keys,
/// queue): every planned asset that is not done and parses.
pub open spec fn restored_assets(done: Seq<Seq<char>>, planned: Seq<Seq<char>>) -> (
    Seq<Seq<char>>,
    Seq<UrlParts>,
)
    decreases planned.len(),
{
    if planned.len() == 0 {
        (Seq::empty(), Seq::empty())
    } else {
        let (p, q) = restored_assets(done, planned.drop_last());
        let a = planned.last();
        if !done.contains(a) && parsed_url(a) is Some {
            (if p.contains(a) {
                p
            } else {
                p.push(a)
            }, q.push(parsed_url(a)->0))
        } else {
            (p, q)
        }
    }
}

/// The URLs of a page list that parse.
pub open spec fn parsed_list(list: Seq<Seq<char>>) -> Seq<UrlParts>
    decreases list.len(),
{
    if list.len() == 0 {
        Seq::empty()
    } else {
        let r = parsed_list(list.drop_last());
        match parsed_url(list.last()) {
            Some(u) => r.push(u),
            None => r,
        }
    }
}

pub open spec fn invalid_entry_message(s: Seq<char>) -> Seq<char> {
    "آدرس نامعتبر در لیست: "@ + s
}

/// A message for each entry of a page list that does not parse.
pub open spec fn list_errors(list: Seq<Seq<char>>) -> Seq<Seq<char>>
    decreases list.len(),
{
    if list.len() == 0 {
        Seq::empty()
    } else {
        let r = list_errors(list.drop_last());
        match parsed_url(list.last()) {
            Some(u) => r,
            None => r.push(invalid_entry_message(list.last())),
        }
    }
}

/// The asset references of a document, in order, queued once each: trackers
/// are skipped when blocking, and only admitted assets whose key is not yet
/// pending are queued. Gives the pending keys and the queue.
pub open spec fn queued_assets(
    pending: Seq<Seq<char>>,
    queue: Seq<UrlParts>,
    refs: Seq<RefView>,
    site: Seq<char>,
    include_external: bool,
    block_tracking: bool,
) -> (Seq<Seq<char>>, Seq<UrlParts>)
    decreases refs.len(),
{
    if refs.len() == 0 {
        (pending, queue)
    } else {
        let (p, q) = queued_assets(
            pending,
            queue,
            refs.drop_last(),
            site,
            include_external,
            block_tracking,
        );
        let u = refs.last().resolved;
        if !(block_tracking && is_tracking(u)) && admits_asset(u, site, include_external)
            && !p.contains(url_key(u)) {
            (p.push(url_key(u)), q.push(u))
        } else {
            (p, q)
        }
    }
}

/// The page list the clone follows, if any: the one of the resumed
/// checkpoint, else the confirmed one of the options.
pub open spec fn page_list(
    opts_planned: Option<Seq<Seq<char>>>,
    resumed_planned: Option<Seq<Seq<char>>>,
) -> Option<Seq<Seq<char>>> {
    if resumed_planned is Some {
        resumed_planned
    } else {
        opts_planned
    }
}

pub open spec fn opt_strings_view(o: Option<Vec<String>>) -> Option<Seq<Seq<char>>> {
    match o {
        Some(v) => Some(strings_view(v@)),
        None => None,
    }
}

pub open spec fn pairs_view(v: Seq<(String, String)>) -> Seq<(Seq<char>, Seq<char>)> {
    v.map_values(|e: (String, String)| (e.0@, e.1@))
}

impl Crawl {
    pub closed spec fn wf(&self) -> bool {
        &&& self.done_pages.wf()
        &&& self.done_assets.wf()
        &&& self.pending.wf()
        &&& self.visited.wf()
        &&& self.url_map.wf()
        &&& self.head <= self.waiting.len()
        &&& (self.planned matches Some(p) ==> self.planned_next <= p.len())
        &&& forall|i: int| 0 <= i < self.waiting@.len() ==> #[trigger] self.waiting@[i].1 <= self.max_depth
        &&& self.handed@ matches Some(StepView::Fetch(_, d)) ==> 0 <= d <= self.max_depth
    }
}

fn keyset_from(list: &Vec<String>) -> (s: KeySet)
    ensures
        s.wf(),
        s@ == keys_from(Seq::empty(), strings_view(list@)),
{
    let mut s = KeySet::new();
    let ghost lv = strings_view(list@);
    let mut i: usize = 0;
    while i < list.len()
        invariant
            i <= list.len(),
            lv == strings_view(list@),
            s.wf(),
            s@ == keys_from(Seq::empty(), lv.take(i as int)),
        decreases list.len() - i,
    {
        assert(lv.take(i + 1).drop_last() =~= lv.take(i as int));
        assert(lv.take(i + 1).last() == list@[i as int]@);
        s.insert(list[i].as_str());
        i = i + 1;
    }
    assert(lv.take(lv.len() as int) =~= lv);
    s
}

fn url_map_from(pairs: &Vec<(String, String)>) -> (m: UrlMap)
    ensures
        m.wf(),
        m@ == map_from(Map::empty(), pairs_view(pairs@)),
{
    let mut m = UrlMap::new();
    let ghost pv = pairs_view(pairs@);
    let mut i: usize = 0;
    while i < pairs.len()
        invariant
            i <= pairs.len(),
            pv == pairs_view(pairs@),
            m.wf(),
            m@ == map_from(Map::empty(), pv.take(i as int)),
        decreases pairs.len() - i,
    {
        assert(pv.take(i + 1).drop_last() =~= pv.take(i as int));
        assert(pv.take(i + 1).last() == (pairs@[i as int].0@, pairs@[i as int].1@));
        m.insert(pairs[i].0.as_str(), pairs[i].1.as_str());
        i = i + 1;
    }
    assert(pv.take(pv.len() as int) =~= pv);
    m
}

fn parse_list(list: &Vec<String>, errors: &mut Vec<String>) -> (r: Vec<WebUrl>)
    ensures
        urls_view(r@) == parsed_list(strings_view(list@)),
        strings_view(final(errors)@) == strings_view(old(errors)@) + list_errors(strings_view(list@)),
{
    let ghost lv = strings_view(list@);
    let mut r: Vec<WebUrl> = Vec::new();
    let mut i: usize = 0;
    while i < list.len()
        invariant
            i <= list.len(),
            lv == strings_view(list@),
            urls_view(r@) == parsed_list(lv.take(i as int)),
            strings_view(errors@) == strings_view(old(errors)@) + list_errors(lv.take(i as int)),
        decreases list.len() - i,
    {
        assert(lv.take(i + 1).drop_last() =~= lv.take(i as int));
        assert(lv.take(i + 1).last() == list@[i as int]@);
        match WebUrl::parse(list[i].as_str()) {
            Some(u) => {
                let ghost before = urls_view(r@);
                r.push(u);
                assert(urls_view(r@) =~= before.push(parsed_url(list@[i as int]@)->0));
            },
            None => {
                let ghost before = strings_view(errors@);
                let m = cat("آدرس نامعتبر در لیست: ", list[i].as_str());
                errors.push(m);
                assert(strings_view(errors@) =~= before.push(invalid_entry_message(list@[i as int]@)));
            },
        }
        i = i + 1;
    }
    assert(lv.take(lv.len() as int) =~= lv);
    r
}

fn restore_assets(
    done: &KeySet,
    planned: &Vec<String>,
    pending: &mut KeySet,
    queue: &mut Vec<WebUrl>,
)
    requires
        old(pending)@ == Seq::<Seq<char>>::empty(),
        old(pending).wf(),
        old(queue)@.len() == 0,
    ensures
        final(pending).wf(),
        (final(pending)@, urls_view(final(queue)@)) == restored_assets(done@, strings_view(planned@)),
{
    let ghost lv = strings_view(planned@);
    let mut i: usize = 0;
    assert(urls_view(queue@) =~= Seq::<UrlParts>::empty());
    while i < planned.len()
        invariant
            i <= planned.len(),
            lv == strings_view(planned@),
            pending.wf(),
            (pending@, urls_view(queue@)) == restored_assets(done@, lv.take(i as int)),
        decreases planned.len() - i,
    {
        assert(lv.take(i + 1).drop_last() =~= lv.take(i as int));
        assert(lv.take(i + 1).last() == planned@[i as int]@);
        let a = planned[i].as_str();
        if !done.contains(a) {
            match WebUrl::parse(a) {
                Some(u) => {
                    pending.insert(a);
                    let ghost before = urls_view(queue@);
                    queue.push(u);
                    assert(urls_view(queue@) =~= before.push(parsed_url(a@)->0));
                },
                None => {},
            }
        }
        i = i + 1;
    }
    assert(lv.take(lv.len() as int) =~= lv);
}

/// Queues the asset references of a document (see `queued_assets`).
fn queue_refs(
    refs: &Vec<Reference>,
    site: &str,
    include_external: bool,
    block_tracking: bool,
    pending: &mut KeySet,
    queue: &mut Vec<WebUrl>,
)
    requires
        old(pending).wf(),
    ensures
        final(pending).wf(),
        (final(pending)@, urls_view(final(queue)@)) == queued_assets(
            old(pending)@,
            urls_view(old(queue)@),
            refs_view(refs@),
            site@,
            include_external,
            block_tracking,
        ),
{
    let ghost rv = refs_view(refs@);
    let ghost p0 = pending@;
    let ghost q0 = urls_view(queue@);
    let mut i: usize = 0;
    while i < refs.len()
        invariant
            i <= refs.len(),
            rv == refs_view(refs@),
            pending.wf(),
            (pending@, urls_view(queue@)) == queued_assets(
                p0,
                q0,
                rv.take(i as int),
                site@,
                include_external,
                block_tracking,
            ),
        decreases refs.len() - i,
    {
        assert(rv.take(i + 1).drop_last() =~= rv.take(i as int));
        assert(rv.take(i + 1).last() == refs@[i as int]@);
        let u = &refs[i].resolved;
        if !(block_tracking && is_tracking_url(u)) {
            queue_asset(u, site, include_external, pending, queue);
        }
        i = i + 1;
    }
    assert(rv.take(rv.len() as int) =~= rv);
}

/// The next step of the page phase, as specified.
pub enum StepView {
    Fetch(UrlParts, int),
    Reload(UrlParts, Seq<char>),
    Cancelled,
    Finished,
}

pub open spec fn step_view(s: PageStep) -> StepView {
    match s {
        PageStep::Fetch(u, d) => StepView::Fetch(u@, d as int),
        PageStep::Reload(u, r) => StepView::Reload(u@, r@),
        PageStep::Cancelled => StepView::Cancelled,
        PageStep::Finished => StepView::Finished,
    }
}

/// The step a page event must answer: a fetch or a reload.
pub open spec fn handed_step(st: StepView) -> Option<StepView> {
    match st {
        StepView::Fetch(..) | StepView::Reload(..) => Some(st),
        _ => None,
    }
}

/// Taking pages of a confirmed list from index `i`: pages saved earlier are
/// read back when their file is known and skipped otherwise; the first page
/// not yet saved is fetched. Gives the next index and the step.
pub open spec fn planned_scan(
    p: Seq<UrlParts>,
    i: int,
    done: Seq<Seq<char>>,
    map: Map<Seq<char>, Seq<char>>,
    cancelled: bool,
) -> (int, StepView)
    decreases p.len() - i,
{
    if i < 0 || i >= p.len() {
        (i, StepView::Finished)
    } else if cancelled {
        (i + 1, StepView::Cancelled)
    } else if done.contains(url_key(p[i])) {
        if map.dom().contains(url_key(p[i])) {
            (i + 1, StepView::Reload(p[i], map[url_key(p[i])]))
        } else {
            planned_scan(p, i + 1, done, map, cancelled)
        }
    } else {
        (i + 1, StepView::Fetch(p[i], 0))
    }
}

/// Taking pages of the link queue from index `i`: the crawl ends when
/// `max_pages` pages are saved; saved pages are skipped; the first other
/// page is fetched. Gives the number of entries consumed and the step.
pub open spec fn link_scan(
    w: Seq<(UrlParts, int)>,
    i: int,
    done: Seq<Seq<char>>,
    pages: int,
    max_pages: int,
    cancelled: bool,
) -> (int, StepView)
    decreases w.len() - i,
{
    if i < 0 || i >= w.len() {
        (i, StepView::Finished)
    } else if cancelled {
        (i + 1, StepView::Cancelled)
    } else if pages >= max_pages {
        (i + 1, StepView::Finished)
    } else if done.contains(url_key(w[i].0)) {
        link_scan(w, i + 1, done, pages, max_pages, cancelled)
    } else {
        (i + 1, StepView::Fetch(w[i].0, w[i].1))
    }
}

/// The new path of each reference: the mirrored file of its URL, relative
/// to `from`, when that URL was saved.
pub open spec fn ref_paths(
    refs: Seq<RefView>,
    map: Map<Seq<char>, Seq<char>>,
    from: Seq<char>,
) -> Seq<Option<Seq<char>>> {
    refs.map_values(
        |r: RefView|
            if map.dom().contains(url_key(r.resolved)) {
                Some(relative(from, map[url_key(r.resolved)]))
            } else {
                None
            },
    )
}

/// A saved page with its asset references, then its page links, rewritten
/// to the mirrored files.
pub open spec fn rewritten_page(
    url: UrlParts,
    rel: Seq<char>,
    html: Seq<char>,
    map: Map<Seq<char>, Seq<char>>,
) -> Seq<char> {
    let refs = html_asset_refs(html, url);
    let links = html_page_links(html, url);
    let first = crate::rewriter::rewritten(html, refs, ref_paths(refs, map, rel));
    crate::rewriter::rewritten(first, links, ref_paths(links, map, rel))
}

/// A saved stylesheet with its references rewritten to the mirrored files.
pub open spec fn rewritten_css(
    url: UrlParts,
    rel: Seq<char>,
    css: Seq<char>,
    map: Map<Seq<char>, Seq<char>>,
) -> Seq<char> {
    let refs = css_refs(css, url);
    crate::rewriter::rewritten(css, refs, ref_paths(refs, map, rel))
}

/// The redirect page written as `index.html` at the root of the mirror.
pub open spec fn redirect_html(target: Seq<char>) -> Seq<char> {
    "<!DOCTYPE html><html><head><meta charset=\"utf-8\"><meta http-equiv=\"refresh\" content=\"0; url="@
        + target + "\"><title>Redirecting...</title></head><body><p>If you are not redirected, <a href=\""@
        + target + "\">click here</a>.</p></body></html>"@
}

/// Lines joined by newlines.
pub open spec fn join_lines(v: Seq<Seq<char>>) -> Seq<char>
    decreases v.len(),
{
    if v.len() == 0 {
        Seq::empty()
    } else if v.len() == 1 {
        v[0]
    } else {
        join_lines(v.drop_last()) + seq!['\n'] + v.last()
    }
}

pub open spec fn no_pages_details(errors: Seq<Seq<char>>) -> Seq<char> {
    if errors.len() == 0 {
        "اتصال به اینترنت، فایروال، یا آدرس سایت را بررسی کنید."@
    } else {
        join_lines(errors)
    }
}

/// The assets of the queue whose key is not done, in order.
pub open spec fn not_done(q: Seq<UrlParts>, done: Seq<Seq<char>>) -> Seq<UrlParts>
    decreases q.len(),
{
    if q.len() == 0 {
        Seq::empty()
    } else if done.contains(url_key(q.last())) {
        not_done(q.drop_last(), done)
    } else {
        not_done(q.drop_last(), done).push(q.last())
    }
}

fn join_with_newlines(v: &Vec<String>) -> (r: String)
    ensures
        r@ == join_lines(strings_view(v@)),
{
    let ghost sv = strings_view(v@);
    let mut out: Vec<char> = Vec::new();
    let mut i: usize = 0;
    while i < v.len()
        invariant
            i <= v.len(),
            sv == strings_view(v@),
            out@ == join_lines(sv.take(i as int)),
        decreases v.len() - i,
    {
        assert(sv.take(i + 1).drop_last() =~= sv.take(i as int));
        assert(sv.take(i + 1).last() == v@[i as int]@);
        let ghost before = out@;
        if i > 0 {
            out.push('\n');
        }
        let w = chars_of(v[i].as_str());
        crate::text::append_chars(&mut out, w.as_slice());
        proof {
            if i == 0 {
                assert(sv.take(1) =~= seq![sv[0]]);
                assert(out@ =~= sv[0]);
            } else {
                assert(out@ =~= before + seq!['\n'] + w@);
            }
        }
        i = i + 1;
    }
    assert(sv.take(sv.len() as int) =~= sv);
    string_from_chars(out.as_slice())
}

impl Crawl {
    /// Starts a clone. The start URL must parse and have a host; resuming
    /// needs the saved checkpoint, whose done pages, done assets, saved
    /// files and unfinished assets are taken over. A page list (the
    /// checkpoint's when resuming, else the confirmed one) replaces crawling
    /// by links; its entries that do not parse are reported as errors.
    pub fn begin(opts: &CrawlOptions, resumed: Option<JobState>) -> (r: Result<Crawl, CrawlError>)
        ensures
            parsed_url(opts.start_url@) is None <==> r matches Err(CrawlError::InvalidStartUrl(_)),
            (parsed_url(opts.start_url@) matches Some(u) && u.host is None) <==> r matches Err(
                CrawlError::NoHost,
            ),
            (parsed_url(opts.start_url@) matches Some(u) && u.host is Some && opts.resume
                && resumed is None) <==> r matches Err(CrawlError::NoSavedJob),
            r matches Err(e) ==> e is InvalidStartUrl || e is NoHost || e is NoSavedJob,
            r matches Ok(c) ==> {
                let u = parsed_url(opts.start_url@)->0;
                let st = resumed->0;
                let list = page_list(
                    opt_strings_view(opts.planned_pages),
                    if opts.resume {
                        Some(strings_view(st.planned_pages@))
                    } else {
                        None
                    },
                );
                &&& c.wf()
                &&& c@.start_url == u
                &&& c@.site_host == u.host->0
                &&& c@.max_pages == opts.max_pages
                &&& c@.max_depth == opts.max_depth
                &&& c@.include_external == opts.include_external_assets
                &&& c@.follow_external == opts.follow_external_pages
                &&& c@.block_tracking == opts.block_tracking
                &&& c@.done_pages == if opts.resume {
                    keys_from(Seq::empty(), strings_view(st.done_pages@))
                } else {
                    Seq::empty()
                }
                &&& c@.done_assets == if opts.resume {
                    keys_from(Seq::empty(), strings_view(st.done_assets@))
                } else {
                    Seq::empty()
                }
                &&& c@.url_map == if opts.resume {
                    map_from(Map::empty(), pairs_view(st.url_map@))
                } else {
                    Map::empty()
                }
                &&& (c@.pending, c@.asset_queue) == if opts.resume {
                    restored_assets(c@.done_assets, strings_view(st.planned_assets@))
                } else {
                    (Seq::empty(), Seq::empty())
                }
                &&& c@.planned == match list {
                    Some(l) => Some(parsed_list(l)),
                    None => None,
                }
                &&& c@.errors == match list {
                    Some(l) => list_errors(l),
                    None => Seq::empty(),
                }
                &&& c@.planned_next == 0
                &&& c@.waiting == seq![(u, 0int)]
                &&& c@.visited == seq![url_key(u)]
                &&& c@.pages.len() == 0
                &&& c@.css.len() == 0
                &&& c@.assets_done == 0
                &&& c@.handed is None
                &&& c@.batch.len() == 0
            },
    {
        let start = match WebUrl::parse(opts.start_url.as_str()) {
            Some(u) => u,
            None => {
                return Err(CrawlError::InvalidStartUrl(to_owned_string(opts.start_url.as_str())));
            },
        };
        let host = match start.host_str() {
            Some(h) => to_owned_string(h),
            None => {
                return Err(CrawlError::NoHost);
            },
        };
        let mut done_pages = KeySet::new();
        let mut done_assets = KeySet::new();
        let mut url_map = UrlMap::new();
        let mut pending = KeySet::new();
        let mut asset_queue: Vec<WebUrl> = Vec::new();
        let mut resumed_plan: Option<Vec<String>> = None;
        if opts.resume {
            match resumed {
                Some(st) => {
                    done_pages = keyset_from(&st.done_pages);
                    done_assets = keyset_from(&st.done_assets);
                    url_map = url_map_from(&st.url_map);
                    restore_assets(&done_assets, &st.planned_assets, &mut pending, &mut asset_queue);
                    resumed_plan = Some(st.planned_pages);
                },
                None => {
                    return Err(CrawlError::NoSavedJob);
                },
            }
        } else {
            assert(keys_from(Seq::empty(), Seq::<Seq<char>>::empty()) == Seq::<Seq<char>>::empty());
            assert(urls_view(asset_queue@) =~= Seq::<UrlParts>::empty());
        }
        let mut errors: Vec<String> = Vec::new();
        let list: Option<&Vec<String>> = match &resumed_plan {
            Some(l) => Some(l),
            None => match &opts.planned_pages {
                Some(l) => Some(l),
                None => None,
            },
        };
        let planned = match list {
            Some(l) => Some(parse_list(l, &mut errors)),
            None => None,
        };
        assert(strings_view(errors@) == match page_list(
            opt_strings_view(opts.planned_pages),
            opt_strings_view(resumed_plan),
        ) {
            Some(l) => list_errors(l),
            None => Seq::<Seq<char>>::empty(),
        }) by {
            if list is None {
                assert(strings_view(errors@) =~= Seq::<Seq<char>>::empty());
            } else {
                assert(Seq::<Seq<char>>::empty() + list_errors(strings_view(list->0@)) =~= list_errors(
                    strings_view(list->0@),
                ));
            }
        }
        let mut visited = KeySet::new();
        let key = normalize(&start);
        visited.insert(key.as_str());
        let first = start.duplicate();
        let mut waiting: Vec<(WebUrl, usize)> = Vec::new();
        waiting.push((first, 0));
        let c = Crawl {
            start_url: start,
            site_host: host,
            max_pages: opts.max_pages,
            max_depth: opts.max_depth,
            include_external: opts.include_external_assets,
            follow_external: opts.follow_external_pages,
            block_tracking: opts.block_tracking,
            done_pages,
            done_assets,
            pending,
            asset_queue,
            url_map,
            pages: Vec::new(),
            css: Vec::new(),
            errors,
            planned,
            planned_next: 0,
            waiting,
            head: 0,
            visited,
            assets_done: 0,
            handed: Ghost(None),
            batch: Ghost(Seq::empty()),
        };
        assert(c@.visited =~= seq![url_key(c@.start_url)]);
        assert(queue_view(c.waiting@).skip(0) =~= seq![(c@.start_url, 0int)]);
        assert(docs_view(c.pages@) =~= Seq::<(UrlParts, Seq<char>, Seq<char>)>::empty());
        assert(docs_view(c.css@) =~= Seq::<(UrlParts, Seq<char>, Seq<char>)>::empty());
        Ok(c)
    }
}

/// The clone settings that a checkpoint records.
pub fn snapshot_options(opts: &CrawlOptions) -> (r: JobOptionsSnapshot)
    ensures
        r.include_external_assets == opts.include_external_assets,
        r.follow_external_pages == opts.follow_external_pages,
        r.concurrency == opts.concurrency,
        r.timeout_secs == opts.timeout_secs,
        r.user_agent@ == opts.user_agent@,
        r.block_tracking == opts.block_tracking,
        r.report_broken_links == opts.report_broken_links,
{
    JobOptionsSnapshot {
        include_external_assets: opts.include_external_assets,
        follow_external_pages: opts.follow_external_pages,
        concurrency: opts.concurrency,
        timeout_secs: opts.timeout_secs,
        user_agent: to_owned_string(opts.user_agent.as_str()),
        block_tracking: opts.block_tracking,
        report_broken_links: opts.report_broken_links,
    }
}

/// The saved files of a map, as (key, relative path) pairs.
pub fn map_to_strings(url_map: &UrlMap) -> (r: Vec<(String, String)>)
    ensures
        pairs_view(r@) == url_map.pairs(),
{
    url_map.to_pairs()
}

fn copy_strings(v: &Vec<String>) -> (r: Vec<String>)
    ensures
        strings_view(r@) == strings_view(v@),
{
    let mut r: Vec<String> = Vec::new();
    let mut i: usize = 0;
    while i < v.len()
        invariant
            i <= v.len(),
            strings_view(r@) == strings_view(v@).take(i as int),
        decreases v.len() - i,
    {
        let ghost before = strings_view(r@);
        let s = to_owned_string(v[i].as_str());
        r.push(s);
        assert(strings_view(r@) =~= before.push(s@));
        assert(strings_view(v@).take(i + 1) =~= strings_view(v@).take(i as int).push(v@[i as int]@));
        i = i + 1;
    }
    assert(strings_view(v@).take(v@.len() as int) =~= strings_view(v@));
    r
}

impl Crawl {
    /// The next step of the page phase (see `planned_scan` and `link_scan`).
    pub fn next_page(&mut self, cancelled: bool) -> (r: PageStep)
        requires
            old(self).wf(),
        ensures
            final(self).wf(),
            old(self)@.planned matches Some(p) ==> {
                let (n, st) = planned_scan(
                    p,
                    old(self)@.planned_next,
                    old(self)@.done_pages,
                    old(self)@.url_map,
                    cancelled,
                );
                &&& step_view(r) == st
                &&& final(self)@ == (CrawlView { planned_next: n, handed: handed_step(st), ..old(self)@ })
            },
            old(self)@.planned is None ==> {
                let (n, st) = link_scan(
                    old(self)@.waiting,
                    0,
                    old(self)@.done_pages,
                    old(self)@.pages.len() as int,
                    old(self)@.max_pages,
                    cancelled,
                );
                &&& step_view(r) == st
                &&& final(self)@ == (CrawlView {
                    waiting: old(self)@.waiting.skip(n),
                    handed: handed_step(st),
                    ..old(self)@
                })
            },
            r matches PageStep::Fetch(_, d) ==> d <= final(self)@.max_depth,
    {
        match &self.planned {
            Some(p) => {
                let ghost pv = urls_view(p@);
                let mut i = self.planned_next;
                loop
                    invariant
                        self.wf(),
                        *self == *old(self),
                        self.planned == Some(*p),
                        pv == urls_view(p@),
                        self.planned_next <= i <= p.len(),
                        planned_scan(pv, i as int, self@.done_pages, self@.url_map, cancelled)
                            == planned_scan(
                            pv,
                            self.planned_next as int,
                            self@.done_pages,
                            self@.url_map,
                            cancelled,
                        ),
                    decreases p.len() - i,
                {
                    if i >= p.len() {
                        self.planned_next = i;
                        self.handed = Ghost(None);
                        return PageStep::Finished;
                    }
                    if cancelled {
                        self.planned_next = i + 1;
                        self.handed = Ghost(None);
                        return PageStep::Cancelled;
                    }
                    let key = normalize(&p[i]);
                    if self.done_pages.contains(key.as_str()) {
                        match self.url_map.get(key.as_str()) {
                            Some(rel) => {
                                let u = p[i].duplicate();
                                self.planned_next = i + 1;
                                self.handed = Ghost(Some(StepView::Reload(u@, rel@)));
                                return PageStep::Reload(u, rel);
                            },
                            None => {
                                i = i + 1;
                            },
                        }
                    } else {
                        let u = p[i].duplicate();
                        self.planned_next = i + 1;
                        self.handed = Ghost(Some(StepView::Fetch(u@, 0)));
                        return PageStep::Fetch(u, 0);
                    }
                }
            },
            None => {
                let ghost w0 = queue_view(self.waiting@).skip(self.head as int);
                let ghost h0 = self.head;
                loop
                    invariant
                        self.wf(),
                        *self == (Crawl { head: self.head, ..*old(self) }),
                        self.planned is None,
                        h0 == old(self).head,
                        h0 <= self.head <= self.waiting.len(),
                        w0 == queue_view(self.waiting@).skip(h0 as int),
                        link_scan(
                            w0,
                            self.head - h0,
                            self@.done_pages,
                            self@.pages.len() as int,
                            self@.max_pages,
                            cancelled,
                        ) == link_scan(
                            w0,
                            0,
                            self@.done_pages,
                            self@.pages.len() as int,
                            self@.max_pages,
                            cancelled,
                        ),
                    decreases self.waiting.len() - self.head,
                {
                    if self.head >= self.waiting.len() {
                        assert(queue_view(self.waiting@).skip(self.head as int) =~= w0.skip(
                            self.head - h0,
                        ));
                        self.handed = Ghost(None);
                        return PageStep::Finished;
                    }
                    let idx = self.head;
                    self.head = self.head + 1;
                    assert(queue_view(self.waiting@).skip(self.head as int) =~= w0.skip(
                        self.head - h0,
                    ));
                    assert(w0[idx - h0] == queue_view(self.waiting@)[idx as int]);
                    if cancelled {
                        self.handed = Ghost(None);
                        return PageStep::Cancelled;
                    }
                    if self.pages.len() >= self.max_pages {
                        self.handed = Ghost(None);
                        return PageStep::Finished;
                    }
                    let key = normalize(&self.waiting[idx].0);
                    if !self.done_pages.contains(key.as_str()) {
                        let u = self.waiting[idx].0.duplicate();
                        let d = self.waiting[idx].1;
                        self.handed = Ghost(Some(StepView::Fetch(u@, d as int)));
                        return PageStep::Fetch(u, d);
                    }
                }
            },
        }
    }

    /// The page of the reload step `next_page` handed out, read back from
    /// its file.
    pub fn on_page_reloaded(&mut self, url: &WebUrl, rel_path: &str, html: &str)
        requires
            old(self).wf(),
            old(self)@.handed == Some(StepView::Reload(url@, rel_path@)),
        ensures
            final(self).wf(),
            final(self)@ == (CrawlView {
                pages: old(self)@.pages.push((url@, rel_path@, html@)),
                handed: None,
                ..old(self)@
            }),
    {
        let ghost pv = docs_view(self.pages@);
        self.handed = Ghost(None);
        self.pages.push(
            Document {
                url: url.duplicate(),
                rel_path: to_owned_string(rel_path),
                text: to_owned_string(html),
            },
        );
        assert(docs_view(self.pages@) =~= pv.push((url@, rel_path@, html@)));
    }

    /// The file a fetched page is saved to: mirrored under its own host.
    pub fn page_path(&self, url: &WebUrl) -> (r: String)
        ensures
            r@ == local_path(
                url@,
                if url@.host is Some {
                    url@.host->0
                } else {
                    "site"@
                },
            ),
    {
        match url.host_str() {
            Some(h) => url_to_local_path(url, h),
            None => url_to_local_path(url, "site"),
        }
    }

    /// The file a downloaded asset is saved to.
    pub fn asset_path(&self, url: &WebUrl) -> (r: String)
        ensures
            r@ == local_path(url@, self@.site_host),
    {
        url_to_local_path(url, self.site_host.as_str())
    }

    /// Records the fetched HTML page of the fetch step `next_page` handed out
    /// (found at `depth`): remembers its file, queues its asset references,
    /// and, when crawling by links below the depth limit, queues its
    /// followed, unseen page links one level deeper. Returns the file the
    /// page is saved to.
    pub fn on_page_fetched(&mut self, url: &WebUrl, depth: usize, html: &str) -> (rel: String)
        requires
            old(self).wf(),
            old(self)@.handed == Some(StepView::Fetch(url@, depth as int)),
        ensures
            final(self).wf(),
            rel@ == local_path(
                url@,
                if url@.host is Some {
                    url@.host->0
                } else {
                    "site"@
                },
            ),
            ({
                let o = old(self)@;
                let key = url_key(url@);
                let (pend, q) = queued_assets(
                    o.pending,
                    o.asset_queue,
                    html_asset_refs(html@, url@),
                    o.site_host,
                    o.include_external,
                    o.block_tracking,
                );
                let follow = o.planned is None && depth < o.max_depth;
                let nl = new_links(
                    o.visited,
                    html_page_links(html@, url@),
                    o.site_host,
                    o.block_tracking,
                    o.follow_external,
                );
                final(self)@ == (CrawlView {
                    url_map: o.url_map.insert(key, rel@),
                    pending: pend,
                    asset_queue: q,
                    visited: if follow {
                        nl.0
                    } else {
                        o.visited
                    },
                    waiting: if follow {
                        o.waiting + depth_entries(nl.1, depth + 1)
                    } else {
                        o.waiting
                    },
                    pages: o.pages.push((url@, rel@, html@)),
                    done_pages: if o.done_pages.contains(key) {
                        o.done_pages
                    } else {
                        o.done_pages.push(key)
                    },
                    handed: None,
                    ..o
                })
            }),
    {
        self.handed = Ghost(None);
        let rel = self.page_path(url);
        let key = normalize(url);
        self.url_map.insert(key.as_str(), rel.as_str());
        let refs = extract_html_asset_refs(html, url);
        queue_refs(
            &refs,
            self.site_host.as_str(),
            self.include_external,
            self.block_tracking,
            &mut self.pending,
            &mut self.asset_queue,
        );
        if self.planned.is_none() && depth < self.max_depth {
            let links = extract_page_links(html, url);
            let ghost qv = queue_view(self.waiting@);
            let ghost head = self.head;
            enqueue_links(
                &links,
                self.site_host.as_str(),
                self.block_tracking,
                self.follow_external,
                &mut self.visited,
                &mut self.waiting,
                depth + 1,
            );
            proof {
                let nl = new_links(
                    old(self)@.visited,
                    refs_view(links@),
                    self.site_host@,
                    self.block_tracking,
                    self.follow_external,
                ).1;
                assert(queue_view(self.waiting@).skip(head as int) =~= qv.skip(head as int)
                    + depth_entries(nl, depth + 1));
                assert forall|i: int| 0 <= i < self.waiting@.len() implies #[trigger] self.waiting@[i].1
                    <= self.max_depth by {
                    if i >= qv.len() {
                        assert(queue_view(self.waiting@)[i] == depth_entries(nl, depth + 1)[i
                            - qv.len()]);
                    } else {
                        assert(queue_view(self.waiting@)[i] == qv[i]);
                    }
                }
            }
        }
        let ghost pv = docs_view(self.pages@);
        let text = to_owned_string(html);
        let r2 = to_owned_string(rel.as_str());
        self.pages.push(Document { url: url.duplicate(), rel_path: r2, text });
        assert(docs_view(self.pages@) =~= pv.push((url@, rel@, html@)));
        self.done_pages.insert(key.as_str());
        rel
    }

    /// Records a page that could not be fetched.
    pub fn on_page_failed(&mut self, message: &str)
        requires
            old(self).wf(),
        ensures
            final(self).wf(),
            final(self)@ == (CrawlView { errors: old(self)@.errors.push(message@), ..old(self)@ }),
    {
        let ghost ev = strings_view(self.errors@);
        self.errors.push(to_owned_string(message));
        assert(strings_view(self.errors@) =~= ev.push(message@));
    }

    /// After the page phase: the clone fails when no page was saved, with
    /// the fetch errors (or a hint) as details.
    pub fn no_pages_error(&self) -> (r: Option<CrawlError>)
        ensures
            r is Some <==> self@.pages.len() == 0 && self@.done_pages.len() == 0,
            r matches Some(e) ==> e matches CrawlError::NoPages(d) && d@ == no_pages_details(
                self@.errors,
            ),
    {
        if self.pages.len() == 0 && self.done_pages.len() == 0 {
            let d = if self.errors.len() == 0 {
                to_owned_string("اتصال به اینترنت، فایروال، یا آدرس سایت را بررسی کنید.")
            } else {
                join_with_newlines(&self.errors)
            };
            Some(CrawlError::NoPages(d))
        } else {
            None
        }
    }

    /// Drops from the asset queue every asset already saved.
    pub fn start_assets(&mut self)
        requires
            old(self).wf(),
        ensures
            final(self).wf(),
            final(self)@ == (CrawlView {
                asset_queue: not_done(old(self)@.asset_queue, old(self)@.done_assets),
                ..old(self)@
            }),
    {
        let ghost q0 = urls_view(self.asset_queue@);
        let ghost done = self@.done_assets;
        let mut kept: Vec<WebUrl> = Vec::new();
        let mut i: usize = 0;
        while i < self.asset_queue.len()
            invariant
                i <= self.asset_queue.len(),
                q0 == urls_view(self.asset_queue@),
                done == self.done_assets@,
                urls_view(kept@) == not_done(q0.take(i as int), done),
            decreases self.asset_queue.len() - i,
        {
            let u = &self.asset_queue[i];
            let key = normalize(u);
            let ghost before = urls_view(kept@);
            assert(q0.take(i + 1).drop_last() =~= q0.take(i as int));
            assert(q0.take(i + 1).last() == u@);
            assert(not_done(q0.take(i + 1), done) == if !done.contains(url_key(u@)) {
                not_done(q0.take(i as int), done).push(u@)
            } else {
                not_done(q0.take(i as int), done)
            });
            if !self.done_assets.contains(key.as_str()) {
                kept.push(u.duplicate());
                assert(urls_view(kept@) =~= before.push(u@));
            }
            i = i + 1;
        }
        assert(q0.take(q0.len() as int) =~= q0);
        self.asset_queue = kept;
    }
}

fn paths_for(refs: &Vec<Reference>, map: &UrlMap, from: &str) -> (r: Vec<Option<String>>)
    requires
        map.wf(),
    ensures
        r.len() == refs.len(),
        crate::rewriter::opt_strs_view(r@) == ref_paths(refs_view(refs@), map@, from@),
{
    let ghost rv = refs_view(refs@);
    let mut out: Vec<Option<String>> = Vec::new();
    let mut i: usize = 0;
    while i < refs.len()
        invariant
            i <= refs.len(),
            map.wf(),
            rv == refs_view(refs@),
            out.len() == i,
            crate::rewriter::opt_strs_view(out@) == ref_paths(rv, map@, from@).take(i as int),
        decreases refs.len() - i,
    {
        let key = normalize(&refs[i].resolved);
        let np = match map.get(key.as_str()) {
            Some(t) => Some(relative_path(from, t.as_str())),
            None => None,
        };
        let ghost before = crate::rewriter::opt_strs_view(out@);
        assert(rv[i as int] == refs@[i as int]@);
        out.push(np);
        assert(crate::rewriter::opt_strs_view(out@) =~= before.push(crate::urls::opt_str_view(np)));
        assert(ref_paths(rv, map@, from@).take(i + 1) =~= ref_paths(rv, map@, from@).take(
            i as int,
        ).push(ref_paths(rv, map@, from@)[i as int]));
        i = i + 1;
    }
    assert(ref_paths(rv, map@, from@).take(rv.len() as int) =~= ref_paths(rv, map@, from@));
    out
}

impl Crawl {
    /// The next batch of assets to download: the whole queue, unless it is
    /// empty or the clone is cancelled.
    pub fn next_asset_batch(&mut self, cancelled: bool) -> (r: Option<Vec<WebUrl>>)
        requires
            old(self).wf(),
        ensures
            final(self).wf(),
            (old(self)@.asset_queue.len() == 0 || cancelled) ==> r is None && final(self)@
                == old(self)@,
            (old(self)@.asset_queue.len() > 0 && !cancelled) ==> (r matches Some(b) && urls_view(b@)
                == old(self)@.asset_queue && final(self)@ == (CrawlView {
                asset_queue: Seq::empty(),
                batch: old(self)@.asset_queue,
                ..old(self)@
            })),
    {
        if self.asset_queue.len() == 0 || cancelled {
            return None;
        }
        let mut batch: Vec<WebUrl> = Vec::new();
        std::mem::swap(&mut batch, &mut self.asset_queue);
        self.batch = Ghost(urls_view(batch@));
        assert(urls_view(self.asset_queue@) =~= Seq::<UrlParts>::empty());
        Some(batch)
    }

    /// Records a downloaded asset of the batch `next_asset_batch` handed out
    /// (saved to `asset_path(url)`): remembers its file, and for a
    /// stylesheet queues its references and keeps its text for rewriting.
    pub fn on_asset_downloaded(&mut self, url: &WebUrl, css_text: Option<String>)
        requires
            old(self).wf(),
            old(self)@.batch.contains(url@),
            old(self)@.assets_done < usize::MAX,
        ensures
            final(self).wf(),
            ({
                let o = old(self)@;
                let key = url_key(url@);
                let rel = local_path(url@, o.site_host);
                let (pend, q) = match css_text {
                    Some(c) => queued_assets(
                        o.pending,
                        o.asset_queue,
                        css_refs(c@, url@),
                        o.site_host,
                        o.include_external,
                        o.block_tracking,
                    ),
                    None => (o.pending, o.asset_queue),
                };
                final(self)@ == (CrawlView {
                    assets_done: o.assets_done + 1,
                    done_assets: if o.done_assets.contains(key) {
                        o.done_assets
                    } else {
                        o.done_assets.push(key)
                    },
                    url_map: o.url_map.insert(key, rel),
                    pending: pend,
                    asset_queue: q,
                    css: match css_text {
                        Some(c) => o.css.push((url@, rel, c@)),
                        None => o.css,
                    },
                    ..o
                })
            }),
    {
        self.assets_done = self.assets_done + 1;
        let key = normalize(url);
        self.done_assets.insert(key.as_str());
        let rel = self.asset_path(url);
        self.url_map.insert(key.as_str(), rel.as_str());
        match css_text {
            Some(text) => {
                let refs = extract_css_asset_refs(text.as_str(), url);
                queue_refs(
                    &refs,
                    self.site_host.as_str(),
                    self.include_external,
                    self.block_tracking,
                    &mut self.pending,
                    &mut self.asset_queue,
                );
                let ghost cv = docs_view(self.css@);
                self.css.push(Document { url: url.duplicate(), rel_path: rel, text });
                assert(docs_view(self.css@) =~= cv.push((url@, local_path(url@, self@.site_host), text@)));
            },
            None => {},
        }
    }

    /// The length of the confirmed page list, when the clone follows one.
    pub fn planned_len(&self) -> (r: Option<usize>)
        ensures
            r == match self@.planned {
                Some(p) => Some(p.len() as usize),
                None => None::<usize>,
            },
    {
        match &self.planned {
            Some(p) => Some(p.len()),
            None => None,
        }
    }

    /// The start URL as serialised.
    pub fn start_url(&self) -> (r: &str)
        ensures
            r@ == self@.start_url.href,
    {
        self.start_url.as_str()
    }

    pub fn page_count(&self) -> (n: usize)
        ensures
            n == self@.pages.len(),
    {
        self.pages.len()
    }

    pub fn css_count(&self) -> (n: usize)
        ensures
            n == self@.css.len(),
    {
        self.css.len()
    }

    pub fn done_page_count(&self) -> (n: usize)
        ensures
            n == self@.done_pages.len(),
    {
        self.done_pages.len()
    }

    pub fn done_asset_count(&self) -> (n: usize)
        ensures
            n == self@.done_assets.len(),
    {
        self.done_assets.len()
    }

    pub fn pending_count(&self) -> (n: usize)
        ensures
            n == self@.pending.len(),
    {
        self.pending.len()
    }

    pub fn queued_asset_count(&self) -> (n: usize)
        ensures
            n == self@.asset_queue.len(),
    {
        self.asset_queue.len()
    }

    pub fn assets_done(&self) -> (n: usize)
        ensures
            n == self@.assets_done,
    {
        self.assets_done
    }

    pub fn site_host(&self) -> (r: &str)
        ensures
            r@ == self@.site_host,
    {
        self.site_host.as_str()
    }

    /// The file of the `i`-th saved page.
    pub fn page_rel_path(&self, i: usize) -> (r: &str)
        requires
            i < self@.pages.len(),
        ensures
            r@ == self@.pages[i as int].1,
    {
        self.pages[i].rel_path.as_str()
    }

    /// The file of the `i`-th saved stylesheet.
    pub fn css_rel_path(&self, i: usize) -> (r: &str)
        requires
            i < self@.css.len(),
        ensures
            r@ == self@.css[i as int].1,
    {
        self.css[i].rel_path.as_str()
    }

    /// The `i`-th saved page with its references rewritten to the mirrored
    /// files.
    pub fn rewrite_page(&self, i: usize) -> (r: String)
        requires
            self.wf(),
            i < self@.pages.len(),
        ensures
            r@ == rewritten_page(
                self@.pages[i as int].0,
                self@.pages[i as int].1,
                self@.pages[i as int].2,
                self@.url_map,
            ),
    {
        let page = &self.pages[i];
        let html = page.text.as_str();
        let refs = extract_html_asset_refs(html, &page.url);
        let links = extract_page_links(html, &page.url);
        let np1 = paths_for(&refs, &self.url_map, page.rel_path.as_str());
        let first = rewrite_references(html, &refs, &np1);
        let np2 = paths_for(&links, &self.url_map, page.rel_path.as_str());
        rewrite_references(first.as_str(), &links, &np2)
    }

    /// The `i`-th saved stylesheet with its references rewritten to the
    /// mirrored files.
    pub fn rewrite_css(&self, i: usize) -> (r: String)
        requires
            self.wf(),
            i < self@.css.len(),
        ensures
            r@ == rewritten_css(
                self@.css[i as int].0,
                self@.css[i as int].1,
                self@.css[i as int].2,
                self@.url_map,
            ),
    {
        let doc = &self.css[i];
        let text = doc.text.as_str();
        let refs = extract_css_asset_refs(text, &doc.url);
        let np = paths_for(&refs, &self.url_map, doc.rel_path.as_str());
        rewrite_references(text, &refs, &np)
    }

    /// The root `index.html` redirecting to the first saved page, when a
    /// page was saved (written only where no root index exists).
    pub fn root_index_html(&self) -> (r: Option<String>)
        ensures
            r is Some <==> self@.pages.len() > 0,
            r matches Some(h) ==> h@ == redirect_html(relative("index.html"@, self@.pages[0].1)),
    {
        if self.pages.len() == 0 {
            return None;
        }
        let target = relative_path("index.html", self.pages[0].rel_path.as_str());
        let t = target.as_str();
        let a = cat(
            "<!DOCTYPE html><html><head><meta charset=\"utf-8\"><meta http-equiv=\"refresh\" content=\"0; url=",
            t,
        );
        let b = cat(
            a.as_str(),
            "\"><title>Redirecting...</title></head><body><p>If you are not redirected, <a href=\"",
        );
        let c = cat(b.as_str(), t);
        Some(cat(c.as_str(), "\">click here</a>.</p></body></html>"))
    }

    /// The page list a checkpoint taken during the page phase records: the
    /// one already saved, else the pages done so far.
    pub fn checkpoint_plan(&self, saved: Option<Vec<String>>) -> (r: Vec<String>)
        ensures
            saved is Some ==> strings_view(r@) == strings_view(saved->0@),
            saved is None ==> strings_view(r@) == self@.done_pages,
    {
        match saved {
            Some(v) => v,
            None => self.done_pages.to_vec(),
        }
    }

    /// The page list recorded once a confirmed list is processed: the
    /// confirmed list of the options, else the one already saved, else the
    /// pages saved in this run.
    pub fn final_plan(&self, opts: &CrawlOptions, saved: Option<Vec<String>>) -> (r: Vec<String>)
        ensures
            opts.planned_pages is Some ==> strings_view(r@) == strings_view(opts.planned_pages->0@),
            opts.planned_pages is None && saved is Some ==> strings_view(r@) == strings_view(
                saved->0@,
            ),
            opts.planned_pages is None && saved is None ==> strings_view(r@) == self@.pages.map_values(
                |d: (UrlParts, Seq<char>, Seq<char>)| d.0.href,
            ),
    {
        match &opts.planned_pages {
            Some(p) => copy_strings(p),
            None => match saved {
                Some(v) => v,
                None => self.page_urls(),
            },
        }
    }

    /// The URLs of the pages saved in this run.
    pub fn page_urls(&self) -> (r: Vec<String>)
        ensures
            strings_view(r@) == self@.pages.map_values(
                |d: (UrlParts, Seq<char>, Seq<char>)| d.0.href,
            ),
    {
        let ghost pv = self@.pages.map_values(|d: (UrlParts, Seq<char>, Seq<char>)| d.0.href);
        let mut r: Vec<String> = Vec::new();
        let mut i: usize = 0;
        while i < self.pages.len()
            invariant
                i <= self.pages.len(),
                pv == self@.pages.map_values(|d: (UrlParts, Seq<char>, Seq<char>)| d.0.href),
                strings_view(r@) == pv.take(i as int),
            decreases self.pages.len() - i,
        {
            let ghost before = strings_view(r@);
            let s = to_owned_string(self.pages[i].url.as_str());
            r.push(s);
            assert(strings_view(r@) =~= before.push(s@));
            assert(pv.take(i + 1) =~= pv.take(i as int).push(pv[i as int]));
            i = i + 1;
        }
        assert(pv.take(pv.len() as int) =~= pv);
        r
    }

    /// The checkpoint of the clone so far: the given page list, the done
    /// pages and assets, every known asset (pending, then done), the saved
    /// files and the settings, in phase `running`, taken at `now`.
    pub fn checkpoint(&self, opts: &CrawlOptions, planned_pages: &Vec<String>, now: u64) -> (r:
        JobState)
        ensures
            r.version == 1,
            r.start_url@ == opts.start_url@,
            r.site_host@ == self@.site_host,
            strings_view(r.planned_pages@) == strings_view(planned_pages@),
            strings_view(r.done_pages@) == self@.done_pages,
            strings_view(r.planned_assets@) == self@.pending + self@.done_assets,
            strings_view(r.done_assets@) == self@.done_assets,
            map_from(Map::empty(), pairs_view(r.url_map@)) == self@.url_map,
            r.options.include_external_assets == opts.include_external_assets,
            r.options.follow_external_pages == opts.follow_external_pages,
            r.options.concurrency == opts.concurrency,
            r.options.timeout_secs == opts.timeout_secs,
            r.options.user_agent@ == opts.user_agent@,
            r.options.block_tracking == opts.block_tracking,
            r.options.report_broken_links == opts.report_broken_links,
            r.phase@ == "running"@,
            r.updated_at == now,
    {
        let mut planned_assets = self.pending.to_vec();
        let done = self.done_assets.to_vec();
        let ghost pa = strings_view(planned_assets@);
        let mut i: usize = 0;
        while i < done.len()
            invariant
                i <= done.len(),
                strings_view(planned_assets@) == pa + strings_view(done@).take(i as int),
            decreases done.len() - i,
        {
            let ghost before = strings_view(planned_assets@);
            let s = to_owned_string(done[i].as_str());
            planned_assets.push(s);
            assert(strings_view(planned_assets@) =~= before.push(s@));
            assert(strings_view(done@).take(i + 1) =~= strings_view(done@).take(i as int).push(
                done@[i as int]@,
            ));
            i = i + 1;
        }
        assert(strings_view(done@).take(done@.len() as int) =~= strings_view(done@));
        let pairs = map_to_strings(&self.url_map);
        proof {
            self.url_map.lemma_pairs_map();
        }
        JobState {
            version: 1,
            start_url: to_owned_string(opts.start_url.as_str()),
            site_host: to_owned_string(self.site_host.as_str()),
            planned_pages: copy_strings(planned_pages),
            done_pages: self.done_pages.to_vec(),
            planned_assets,
            done_assets: done,
            url_map: pairs,
            options: snapshot_options(opts),
            phase: to_owned_string("running"),
            updated_at: now,
        }
    }
}

// ---------------------------------------------------------------------------
// Laws of the page phase and of resuming.
/// With a confirmed page list, only pages of that list are fetched, each at
/// depth 0, and never a page saved earlier.
pub proof fn law_planned_fetch_from_list(
    p: Seq<UrlParts>,
    i: int,
    done: Seq<Seq<char>>,
    map: Map<Seq<char>, Seq<char>>,
    cancelled: bool,
)
    requires
        0 <= i,
    ensures
        planned_scan(p, i, done, map, cancelled).1 matches StepView::Fetch(u, d) ==> p.contains(u) && d
            == 0 && !done.contains(url_key(u)),
    decreases p.len() - i,
{
    if i < p.len() && !cancelled {
        if done.contains(url_key(p[i])) {
            if !map.dom().contains(url_key(p[i])) {
                law_planned_fetch_from_list(p, i + 1, done, map, cancelled);
            }
        } else {
            assert(p[i] == p[i]);
        }
    }
}

/// Crawling by links fetches a page only while fewer than `max_pages` pages
/// are saved, only a page that was queued, and never a page saved earlier.
pub proof fn law_link_fetch_within_limit(
    w: Seq<(UrlParts, int)>,
    i: int,
    done: Seq<Seq<char>>,
    pages: int,
    max_pages: int,
    cancelled: bool,
)
    requires
        0 <= i,
    ensures
        link_scan(w, i, done, pages, max_pages, cancelled).1 matches StepView::Fetch(u, d) ==> pages
            < max_pages && w.contains((u, d)) && !done.contains(url_key(u)),
    decreases w.len() - i,
{
    if i < w.len() && !cancelled && pages < max_pages {
        if done.contains(url_key(w[i].0)) {
            law_link_fetch_within_limit(w, i + 1, done, pages, max_pages, cancelled);
        } else {
            assert(w[i] == (w[i].0, w[i].1));
        }
    }
}

/// Resuming takes over a checkpoint's list of done keys exactly: a list
/// that holds each key once comes back as it was saved.
pub proof fn law_resume_keeps_done_list(done: Seq<Seq<char>>)
    requires
        done.no_duplicates(),
    ensures
        keys_from(Seq::empty(), done) == done,
    decreases done.len(),
{
    if done.len() > 0 {
        let init = done.drop_last();
        assert(init.no_duplicates()) by {
            assert forall|a: int, b: int| 0 <= a < init.len() && 0 <= b < init.len() && a != b implies init[a]
                != init[b] by {
                assert(init[a] == done[a] && init[b] == done[b]);
            }
        }
        law_resume_keeps_done_list(init);
        if init.contains(done.last()) {
            let k = choose|k: int| 0 <= k < init.len() && init[k] == done.last();
            assert(done[k] == done[done.len() - 1]);
        }
        assert(init.push(done.last()) =~= done);
    }
}

/// A checkpoint read back gives the state that was written: for the
/// checkpoint of a clone (as `checkpoint` makes it), the done pages, done
/// assets and saved files that resuming takes over from it (as `begin`
/// takes them) are exactly those of the clone.
pub proof fn law_checkpoint_round_trip(c: &Crawl, st: &JobState)
    requires
        c.wf(),
        strings_view(st.done_pages@) == c@.done_pages,
        strings_view(st.done_assets@) == c@.done_assets,
        map_from(Map::empty(), pairs_view(st.url_map@)) == c@.url_map,
    ensures
        keys_from(Seq::empty(), strings_view(st.done_pages@)) == c@.done_pages,
        keys_from(Seq::empty(), strings_view(st.done_assets@)) == c@.done_assets,
        map_from(Map::empty(), pairs_view(st.url_map@)) == c@.url_map,
{
    law_resume_keeps_done_list(c@.done_pages);
    law_resume_keeps_done_list(c@.done_assets);
}

/// A clone handles each page and each asset once: the keys of the saved
/// pages, of the saved assets, of the queued assets and of the queued pages
/// each hold no key twice, in every state the clone passes through.
pub proof fn law_crawl_keys_unique(c: &Crawl)
    requires
        c.wf(),
    ensures
        c@.done_pages.no_duplicates(),
        c@.done_assets.no_duplicates(),
        c@.pending.no_duplicates(),
        c@.visited.no_duplicates(),
{
}

/// Assets of other hosts are downloaded when external assets are included:
/// with `include_external` set, every reference over HTTP(S) that is not a
/// blocked tracker ends up among the queued keys, and a key that was not
/// queued before comes with a queued URL.
pub proof fn law_external_assets_queued(
    pending: Seq<Seq<char>>,
    queue: Seq<UrlParts>,
    refs: Seq<RefView>,
    site: Seq<char>,
    block_tracking: bool,
    i: int,
)
    requires
        0 <= i < refs.len(),
        is_web_scheme(refs[i].resolved.scheme),
        !(block_tracking && is_tracking(refs[i].resolved)),
    ensures
        queued_assets(pending, queue, refs, site, true, block_tracking).0.contains(
            url_key(refs[i].resolved),
        ),
        !pending.contains(url_key(refs[i].resolved)) ==> exists|j: int|
            0 <= j < queued_assets(pending, queue, refs, site, true, block_tracking).1.len()
                && url_key(#[trigger] queued_assets(pending, queue, refs, site, true, block_tracking).1[j])
                == url_key(refs[i].resolved),
    decreases refs.len(),
{
    let k = url_key(refs[i].resolved);
    lemma_queued_keys_have_urls(pending, queue, refs, site, true, block_tracking, k);
    let (p, q) = queued_assets(pending, queue, refs.drop_last(), site, true, block_tracking);
    if i < refs.len() - 1 {
        assert(refs.drop_last()[i] == refs[i]);
        law_external_assets_queued(pending, queue, refs.drop_last(), site, block_tracking, i);
        let u = refs.last().resolved;
        if !(block_tracking && is_tracking(u)) && admits_asset(u, site, true) && !p.contains(url_key(u)) {
            assert(p.push(url_key(u))[p.len() as int] == url_key(u));
            let m = choose|m: int| 0 <= m < p.len() && p[m] == k;
            assert(p.push(url_key(u))[m] == k);
        }
    } else {
        if !p.contains(k) {
            assert(p.push(k)[p.len() as int] == k);
        }
    }
}

/// A key queued by `queued_assets` that was not pending before comes with a
/// queued URL of that key.
proof fn lemma_queued_keys_have_urls(
    pending: Seq<Seq<char>>,
    queue: Seq<UrlParts>,
    refs: Seq<RefView>,
    site: Seq<char>,
    include_external: bool,
    block_tracking: bool,
    k: Seq<char>,
)
    ensures
        queued_assets(pending, queue, refs, site, include_external, block_tracking).0.contains(k)
            && !pending.contains(k) ==> exists|j: int|
            0 <= j < queued_assets(pending, queue, refs, site, include_external, block_tracking).1.len()
                && url_key(
                #[trigger] queued_assets(pending, queue, refs, site, include_external, block_tracking).1[j],
            ) == k,
    decreases refs.len(),
{
    if refs.len() > 0 {
        lemma_queued_keys_have_urls(
            pending,
            queue,
            refs.drop_last(),
            site,
            include_external,
            block_tracking,
            k,
        );
        let pq = queued_assets(pending, queue, refs.drop_last(), site, include_external, block_tracking);
        let p = pq.0;
        let q = pq.1;
        let res = queued_assets(pending, queue, refs, site, include_external, block_tracking);
        let u = refs.last().resolved;
        if res.0.contains(k) && !pending.contains(k) {
            if !(block_tracking && is_tracking(u)) && admits_asset(u, site, include_external)
                && !p.contains(url_key(u)) {
                assert(res == (p.push(url_key(u)), q.push(u)));
                if p.contains(k) {
                    let j = choose|j: int| 0 <= j < q.len() && url_key(#[trigger] q[j]) == k;
                    assert(res.1[j] == q[j]);
                } else {
                    let m = choose|m: int| 0 <= m < res.0.len() && res.0[m] == k;
                    assert(m == p.len());
                    assert(res.1[q.len() as int] == u);
                }
            } else {
                assert(res == pq);
                let j = choose|j: int| 0 <= j < q.len() && url_key(#[trigger] q[j]) == k;
                assert(res.1[j] == q[j]);
            }
        }
    }
}

/// Only admitted assets are queued: every URL `queued_assets` adds to the
/// queue is over HTTP(S), is not a blocked tracker, and is on the site
/// unless external assets are included; the queue before is kept.
pub proof fn law_only_admitted_assets_queued(
    pending: Seq<Seq<char>>,
    queue: Seq<UrlParts>,
    refs: Seq<RefView>,
    site: Seq<char>,
    include_external: bool,
    block_tracking: bool,
)
    ensures
        queued_assets(pending, queue, refs, site, include_external, block_tracking).1.len() >= queue.len(),
        forall|j: int|
            0 <= j < queue.len() ==> #[trigger] queued_assets(
                pending,
                queue,
                refs,
                site,
                include_external,
                block_tracking,
            ).1[j] == queue[j],
        forall|j: int|
            queue.len() <= j < queued_assets(pending, queue, refs, site, include_external, block_tracking).1.len()
                ==> {
                let u = #[trigger] queued_assets(pending, queue, refs, site, include_external, block_tracking).1[j];
                &&& is_web_scheme(u.scheme)
                &&& !(block_tracking && is_tracking(u))
                &&& (include_external || u.host == Some(site))
            },
    decreases refs.len(),
{
    if refs.len() > 0 {
        law_only_admitted_assets_queued(pending, queue, refs.drop_last(), site, include_external, block_tracking);
        let pq = queued_assets(pending, queue, refs.drop_last(), site, include_external, block_tracking);
        let res = queued_assets(pending, queue, refs, site, include_external, block_tracking);
        let u = refs.last().resolved;
        if !(block_tracking && is_tracking(u)) && admits_asset(u, site, include_external) && !pq.0.contains(
            url_key(u),
        ) {
            assert(res.1 == pq.1.push(u));
            assert forall|j: int| 0 <= j < pq.1.len() implies #[trigger] res.1[j] == pq.1[j] by {}
        } else {
            assert(res == pq);
        }
    }
}

} // verus!
