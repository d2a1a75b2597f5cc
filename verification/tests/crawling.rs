use webcloner::crawl::{map_to_strings, snapshot_options, Crawl, CrawlOptions, PageStep};
use webcloner::downloader::{is_tracking_url, CrawlError, DiscoverOptions, Discovery};
use webcloner::job_state::JobState;
use webcloner::keyed::{KeySet, UrlMap};
use webcloner::progress::{
    assets_progress_event, assets_start_event, broken_note, crawl_start_event, done_event,
    page_saved_event, pages_cancelled_event, planned_start_event, resume_log,
};
use webcloner::urls::{normalize, WebUrl};

fn url(s: &str) -> WebUrl {
    WebUrl::parse(s).expect("test URL parses")
}

fn options(start: &str) -> CrawlOptions {
    CrawlOptions {
        start_url: start.to_string(),
        out_dir: "/out/site".to_string(),
        max_pages: 10,
        max_depth: 2,
        include_external_assets: false,
        follow_external_pages: false,
        concurrency: 4,
        timeout_secs: 30,
        user_agent: "ua".to_string(),
        block_tracking: true,
        report_broken_links: false,
        planned_pages: None,
        resume: false,
    }
}

fn discover_options(start: &str, cap: usize) -> DiscoverOptions {
    DiscoverOptions {
        start_url: start.to_string(),
        max_pages_cap: cap,
        max_depth: 3,
        follow_external_pages: false,
        block_tracking: true,
        timeout_secs: 25,
        user_agent: "ua".to_string(),
    }
}

#[test]
fn start_url_errors() {
    assert!(matches!(Crawl::begin(&options("not a url"), None), Err(CrawlError::InvalidStartUrl(_))));
    let mut o = options("https://example.com/");
    o.resume = true;
    let e = Crawl::begin(&o, None).err().unwrap();
    assert!(matches!(e, CrawlError::NoSavedJob));
    assert_eq!(e.message(), "فایل ادامه دانلود (.webcloner-job.json) پیدا نشد.");
    assert_eq!(
        CrawlError::InvalidStartUrl("x".to_string()).message(),
        "آدرس «x» معتبر نیست."
    );
    assert_eq!(CrawlError::NoPages("a\nb".to_string()).message(), "هیچ صفحه‌ای دانلود نشد.\na\nb");
}

#[test]
fn crawl_by_links_then_assets_then_rewrite() {
    let o = options("https://example.com/");
    let mut c = Crawl::begin(&o, None).ok().unwrap();
    let (u, d) = match c.next_page(false) {
        PageStep::Fetch(u, d) => (u, d),
        _ => panic!("expected the start page"),
    };
    assert_eq!(u.as_str(), "https://example.com/");
    assert_eq!(d, 0);
    let html = r#"<html><head><link rel="stylesheet" href="/css/s.css"><script src="https://www.google-analytics.com/analytics.js"></script></head>
<body><a href="/about.html">About</a><a href="https://other.org/x">X</a><img src="https://cdn.net/i.png"></body></html>"#;
    let rel = c.on_page_fetched(&u, d, html);
    assert_eq!(rel, "index.html");
    assert_eq!(c.done_page_count(), 1);
    assert_eq!(c.queued_asset_count(), 1);
    let (about, d2) = match c.next_page(false) {
        PageStep::Fetch(u, d) => (u, d),
        _ => panic!("expected the linked page"),
    };
    assert_eq!(about.as_str(), "https://example.com/about.html");
    assert_eq!(d2, 1);
    c.on_page_failed("رد صفحه https://example.com/about.html (HTTP 404)");
    assert!(matches!(c.next_page(false), PageStep::Finished));
    assert!(c.no_pages_error().is_none());
    c.start_assets();
    let batch = c.next_asset_batch(false).unwrap();
    assert_eq!(batch.len(), 1);
    assert_eq!(batch[0].as_str(), "https://example.com/css/s.css");
    assert_eq!(c.asset_path(&batch[0]), "css/s.css");
    c.on_asset_downloaded(&batch[0], Some("body{background:url(../img/bg.png)}".to_string()));
    assert_eq!(c.assets_done(), 1);
    let next = c.next_asset_batch(false).unwrap();
    assert_eq!(next[0].as_str(), "https://example.com/img/bg.png");
    c.on_asset_downloaded(&next[0], None);
    assert!(c.next_asset_batch(false).is_none());
    let page = c.rewrite_page(0);
    assert!(page.contains(r#"href="css/s.css""#));
    assert!(page.contains(r#"src="https://www.google-analytics.com/analytics.js""#));
    assert!(page.contains(r#"href="/about.html""#));
    assert_eq!(c.rewrite_css(0), "body{background:url(../img/bg.png)}");
    assert_eq!(c.css_rel_path(0), "css/s.css");
    let index = c.root_index_html().unwrap();
    assert!(index.contains("url=index.html\""));
}

#[test]
fn cancelled_and_empty_crawls() {
    let o = options("https://example.com/");
    let mut c = Crawl::begin(&o, None).ok().unwrap();
    assert!(matches!(c.next_page(true), PageStep::Cancelled));
    let mut e = Crawl::begin(&o, None).ok().unwrap();
    if let PageStep::Fetch(_, _) = e.next_page(false) {
        e.on_page_failed("رد صفحه غیر HTML: https://example.com/");
    }
    let err = e.no_pages_error().unwrap();
    assert_eq!(err.message(), "هیچ صفحه‌ای دانلود نشد.\nرد صفحه غیر HTML: https://example.com/");
}

#[test]
fn confirmed_list_and_resume() {
    let mut o = options("https://example.com/");
    o.planned_pages = Some(vec!["https://example.com/a.html".to_string(), "::bad".to_string()]);
    let mut c = Crawl::begin(&o, None).ok().unwrap();
    let (a, d) = match c.next_page(false) {
        PageStep::Fetch(u, d) => (u, d),
        _ => panic!("expected the listed page"),
    };
    assert_eq!((a.as_str(), d), ("https://example.com/a.html", 0));
    c.on_page_fetched(&a, 0, "<html><a href='b.html'>b</a></html>");
    assert!(matches!(c.next_page(false), PageStep::Finished));
    let plan = c.final_plan(&o, None);
    let state = c.checkpoint(&o, &plan, 7);
    assert_eq!(state.done_pages, vec!["https://example.com/a.html".to_string()]);
    assert_eq!(state.url_map, vec![("https://example.com/a.html".to_string(), "a.html".to_string())]);
    assert_eq!(state.updated_at, 7);
    assert_eq!(state.phase, "running");

    let mut r = options("https://example.com/");
    r.resume = true;
    let mut again = Crawl::begin(&r, Some(state)).ok().unwrap();
    match again.next_page(false) {
        PageStep::Reload(u, rel) => {
            assert_eq!(u.as_str(), "https://example.com/a.html");
            assert_eq!(rel, "a.html");
        }
        _ => panic!("a saved page is read back, not fetched"),
    }
    assert!(matches!(again.next_page(false), PageStep::Finished));
    assert_eq!(again.done_page_count(), 1);
}

#[test]
fn checkpoint_paths_and_snapshots() {
    assert_eq!(JobState::path_for("/out/site"), "/out/site/.webcloner-job.json");
    let o = options("https://example.com/");
    let s = snapshot_options(&o);
    assert_eq!(s.concurrency, 4);
    assert_eq!(s.user_agent, "ua");
    let mut m = UrlMap::new();
    m.insert("https://example.com/", "index.html");
    m.insert("https://example.com/", "home.html");
    assert_eq!(m.get("https://example.com/"), Some("home.html".to_string()));
    assert_eq!(map_to_strings(&m), vec![("https://example.com/".to_string(), "home.html".to_string())]);
    let mut k = KeySet::new();
    assert!(k.insert("a"));
    assert!(!k.insert("a"));
    assert!(k.contains("a") && k.len() == 1);
}

#[test]
fn discovery_stops_at_its_cap() {
    let mut d = Discovery::start(&discover_options("https://example.com/", 1)).ok().unwrap();
    assert_eq!(d.start_message(), "کشف صفحات از https://example.com/ ...");
    let (u, depth) = d.next_page(false).ok().unwrap().unwrap();
    d.record_page(&u, depth, "<a href='/x.html'>x</a><a href='/x.html#f'>again</a>");
    assert!(d.next_page(false).ok().unwrap().is_none());
    let r = d.finish();
    assert!(r.truncated);
    assert_eq!(r.pages.len(), 1);
    assert_eq!(r.message, "1 آدرس پیدا شد (به سقف ایمنی 1 رسید — لیست ناقص است).");
}

#[test]
fn discovery_follows_site_links_once() {
    let mut d = Discovery::start(&discover_options("https://example.com/", 50)).ok().unwrap();
    let (u, depth) = d.next_page(false).ok().unwrap().unwrap();
    d.record_page(&u, depth, "<a href='/x.html'>x</a><a href='/x.html#f'>again</a><a href='https://other.org/'>o</a>");
    let (x, dx) = d.next_page(false).ok().unwrap().unwrap();
    assert_eq!((x.as_str(), dx), ("https://example.com/x.html", 1));
    assert!(d.next_page(false).ok().unwrap().is_none());
    let r = d.finish();
    assert!(!r.truncated);
    assert_eq!(r.pages.len(), 1);
    assert_eq!(r.message, "1 آدرس صفحه برای کلون پیدا شد.");
    let mut c = Discovery::start(&discover_options("https://example.com/", 5)).ok().unwrap();
    c.next_page(false).ok().unwrap();
    assert!(matches!(c.next_page(true), Ok(None)));
    let mut k = Discovery::start(&discover_options("https://example.com/", 5)).ok().unwrap();
    assert!(matches!(k.next_page(true), Err(CrawlError::DiscoveryCancelled)));
}

#[test]
fn tracking_and_keys() {
    assert!(is_tracking_url(&url("https://www.google-analytics.com/analytics.js")));
    assert!(is_tracking_url(&url("https://eu.cdn.segment.com/x.js")));
    assert!(is_tracking_url(&url("https://example.com/js/gtag/js?id=1")));
    assert!(is_tracking_url(&url("https://example.com/facebook/pixel.js")));
    assert!(!is_tracking_url(&url("https://example.com/app.js")));
    assert_eq!(normalize(&url("https://example.com/a#frag")), "https://example.com/a");
}

#[test]
fn progress_reports() {
    let e = planned_start_event(12, 3, 4, 5);
    assert_eq!((e.phase.as_str(), e.message.as_str()), ("pages", "دانلود 12 صفحه تأییدشده..."));
    assert_eq!((e.pages_done, e.pages_total, e.assets_done, e.assets_known), (3, 12, 4, 5));
    let s = crawl_start_event("https://example.com/", "/out", 10);
    assert_eq!(s.message, "در حال کلون https://example.com/ → /out");
    let p = page_saved_event(1, "https://example.com/a", 10, 0, 3);
    assert_eq!(p.message, "صفحه [2] https://example.com/a");
    assert_eq!(p.pages_done, 2);
    let c = pages_cancelled_event("/out", 12, 10, 0, 1);
    assert_eq!(c.pages_total, 12);
    assert_eq!(c.phase, "cancelled");
    let a = assets_start_event(3, 0, 0);
    assert_eq!(a.message, "3 صفحه آماده. در حال دانلود 0 فایل...");
    assert_eq!(a.assets_known, 1);
    assert_eq!(assets_progress_event(3, 7, 5).assets_known, 7);
    assert_eq!(assets_progress_event(3, 7, 5).message, "asset: 7 دریافت شد");
    assert_eq!(done_event("/out", "", 3, 7).message, "تمام شد. سایت آفلاین در: /out");
    assert_eq!(broken_note(2, "/out/broken-links.txt"), "\n2 لینک شکسته پیدا شد → /out/broken-links.txt");
    assert_eq!(broken_note(0, "/x"), "\nلینک شکستهٔ محلی پیدا نشد.");
    assert_eq!(resume_log(4, 9), "ادامه از وضعیت قبلی: 4 صفحه انجام‌شده از 9");
}

#[test]
fn crawl_stops_at_max_pages() {
    let mut o = options("https://example.com/");
    o.max_pages = 1;
    let mut c = Crawl::begin(&o, None).ok().unwrap();
    let u = match c.next_page(false) {
        PageStep::Fetch(u, _) => u,
        _ => panic!("expected the start page"),
    };
    c.on_page_fetched(&u, 0, "<a href='/a.html'>a</a><a href='/b.html'>b</a>");
    assert!(matches!(c.next_page(false), PageStep::Finished));
    assert_eq!(c.page_count(), 1);
}
