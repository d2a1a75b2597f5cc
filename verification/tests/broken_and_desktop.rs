use webcloner::broken_links::{extract_local_refs, link_checks, local_target_of, resolve_local, scan_kind};
use webcloner::desktop::{
    crawl_options_for, default_save_dir, discover_options_for, documents_dir, package_dir,
    package_message, package_readme, remember_download, resume_info, DiscoverRequest,
    DownloadGate, DownloadRequest, app_data_dir, check_project_path, check_save_base, clone_limits, clone_outcome,
    discovery_limits, is_absolute_path, normalize_start_url, output_dir_in, push_recent,
    resume_message, sanitize_folder_name, server_started_message, settings_path,
    validate_project_dir, zip_line, AppSettings, RecentItem, MAX_RECENT,
};
use webcloner::job_state::{JobOptionsSnapshot, JobState};
use webcloner::keyed::KeySet;
use webcloner::local_server::ServerBackend;

#[test]
fn detects_missing_local_href() {
    let root = "/tmp/wc-broken";
    let text = r#"<a href="missing.css">x</a><img src="ok.png">"#;
    let existing = ["/tmp/wc-broken/index.html", "/tmp/wc-broken/ok.png"];
    let kind = scan_kind("/tmp/wc-broken/index.html");
    assert_eq!(kind, Some(false));
    let mut broken = KeySet::new();
    for (key, target) in link_checks(root, "/tmp/wc-broken/index.html", "index.html", text, false) {
        if !existing.contains(&target.as_str()) {
            broken.insert(&key);
        }
    }
    let broken = broken.to_vec();
    assert!(broken.iter().any(|b| b.contains("missing.css")));
    assert!(!broken.iter().any(|b| b.contains("ok.png")));
    assert_eq!(broken, vec!["index.html -> missing.css".to_string()]);
}

#[test]
fn scanned_file_kinds() {
    assert_eq!(scan_kind("/s/a.HTM"), Some(false));
    assert_eq!(scan_kind("/s/site.css"), Some(true));
    assert_eq!(scan_kind("/s/app.js"), None);
    assert_eq!(scan_kind("/s/.css"), None);
}

#[test]
fn local_references_and_targets() {
    let html = r#"<link HREF='s.css'><div data-src="d.png" poster = "p.jpg"></div><p style="background:url(bg.png)"></p>"#;
    assert_eq!(extract_local_refs(html, false), vec!["s.css", "d.png", "p.jpg", "bg.png"]);
    assert_eq!(extract_local_refs("a{b:url('x.gif')} <a href=\"no\">", true), vec!["x.gif"]);
    assert_eq!(local_target_of("http://x/y"), None);
    assert_eq!(local_target_of("#top"), None);
    assert_eq!(local_target_of("mailto:a@b"), None);
    assert_eq!(local_target_of("/"), None);
    assert_eq!(local_target_of("?q=1"), None);
    assert_eq!(local_target_of("img/a.png?v=2#f"), Some("img/a.png".to_string()));
    assert_eq!(resolve_local("/site/sub", "/site", "/css/a.css"), "/site/css/a.css");
    assert_eq!(resolve_local("/site/sub", "/site", "a.css"), "/site/sub/a.css");
    assert_eq!(resolve_local("/site/sub", "/site", "//x.css"), "/site/x.css");
}

#[test]
fn link_checks_of_a_nested_page() {
    let checks = link_checks("/out", "/out/blog/post.html", "blog/post.html", r#"<img src="../img/a.png"><a href="/">h</a><a href="https://e.com/x">e</a>"#, false);
    assert_eq!(
        checks,
        vec![("blog/post.html -> ../img/a.png".to_string(), "/out/blog/../img/a.png".to_string())]
    );
}

#[test]
fn start_url_normalisation() {
    assert_eq!(normalize_start_url("  example.com ").ok(), Some("https://example.com/".to_string()));
    assert_eq!(normalize_start_url("//example.com/a").ok(), Some("https://example.com/a".to_string()));
    assert_eq!(normalize_start_url("http://x.org").ok(), Some("http://x.org/".to_string()));
    assert_eq!(normalize_start_url("   ").err(), Some("آدرس سایت خالی است.".to_string()));
    assert_eq!(normalize_start_url("http://").err(), Some("آدرس «http://» معتبر نیست.".to_string()));
}

#[test]
fn folder_names_are_sanitised() {
    assert_eq!(sanitize_folder_name("my:site/copy"), "my_site_copy");
    assert_eq!(sanitize_folder_name("  ..hidden.. "), "hidden");
    assert_eq!(sanitize_folder_name(" ... "), "cloned-site");
    assert_eq!(sanitize_folder_name(""), "cloned-site");
    assert_eq!(sanitize_folder_name(". a ."), " a ");
}

#[test]
fn absolute_paths() {
    assert!(is_absolute_path("/home/u"));
    assert!(is_absolute_path("C:\\Users"));
    assert!(is_absolute_path("d:/x"));
    assert!(!is_absolute_path("C:"));
    assert!(!is_absolute_path("rel/path"));
    assert!(!is_absolute_path("éa:/x"));
}

#[test]
fn save_and_project_folders() {
    assert_eq!(check_save_base("  "), Err("محل ذخیره‌سازی را انتخاب کنید.".to_string()));
    assert_eq!(
        check_save_base("docs"),
        Err("مسیر ذخیره‌سازی باید کامل باشد. دوباره پوشه را انتخاب کنید.".to_string())
    );
    assert_eq!(check_save_base(" /home/u "), Ok("/home/u".to_string()));
    assert_eq!(output_dir_in("/home/u", "a|b"), "/home/u/a_b");
    assert_eq!(check_project_path(""), Err("پوشه پروژه را انتخاب کنید.".to_string()));
    assert_eq!(check_project_path("C:/x"), Err("مسیر پروژه باید کامل باشد.".to_string()));
    assert_eq!(validate_project_dir(" /p ", false, false), Err("پوشه وجود ندارد: /p".to_string()));
    assert_eq!(validate_project_dir("/p", true, false), Err("مسیر انتخاب‌شده پوشه نیست: /p".to_string()));
    assert_eq!(validate_project_dir("/p", true, true), Ok("/p".to_string()));
}

#[test]
fn settings_location() {
    assert_eq!(settings_path(Some("/appdata"), Some("/home/u")), "/appdata/webcloner/settings.json");
    assert_eq!(settings_path(None, Some("/home/u")), "/home/u/.webcloner/settings.json");
    assert_eq!(app_data_dir(None, None), ".webcloner");
}

fn item(path: &str, kind: &str) -> RecentItem {
    RecentItem { path: path.to_string(), kind: kind.to_string(), url: None, port: None, at: "1".to_string() }
}

fn empty_settings() -> AppSettings {
    AppSettings {
        save_dir: None,
        out_name: None,
        max_pages: None,
        max_depth: None,
        concurrency: None,
        include_external_assets: None,
        follow_external_pages: None,
        zip: None,
        block_tracking: None,
        report_broken_links: None,
        port: Some(8080),
        auto_port: None,
        recent: Vec::new(),
    }
}

#[test]
fn recent_list_keeps_latest_first_without_duplicates() {
    let mut s = empty_settings();
    push_recent(&mut s, item("/a", "clone"));
    push_recent(&mut s, item("/b", "clone"));
    push_recent(&mut s, item("/a", "server"));
    push_recent(&mut s, item("/a", "clone"));
    let order: Vec<(String, String)> = s.recent.iter().map(|r| (r.path.clone(), r.kind.clone())).collect();
    assert_eq!(
        order,
        vec![
            ("/a".to_string(), "clone".to_string()),
            ("/a".to_string(), "server".to_string()),
            ("/b".to_string(), "clone".to_string()),
        ]
    );
    for i in 0..20 {
        push_recent(&mut s, item(&format!("/p{i}"), "clone"));
    }
    assert_eq!(s.recent.len(), MAX_RECENT);
    assert_eq!(s.recent[0].path, "/p19");
    assert_eq!(s.port, Some(8080));
}

#[test]
fn messages_and_limits() {
    assert_eq!(resume_message(3, 10, 42), "دانلود ناتمام پیدا شد: 3/10 صفحه و 42 فایل ذخیره‌شده.");
    assert_eq!(
        server_started_message(ServerBackend::Php, 8080, "http://127.0.0.1:8080"),
        "سرور PHP روی پورت 8080 فعال شد:\nhttp://127.0.0.1:8080"
    );
    assert_eq!(discovery_limits(0, 500), (1, 100));
    assert_eq!(discovery_limits(9000, 3), (5000, 3));
    assert_eq!(clone_limits(0, 0), (1, 1));
    assert_eq!(clone_limits(7, 4), (7, 4));
    assert_eq!(zip_line("/o/site.zip"), "\nفایل ZIP: /o/site.zip");
}

#[test]
fn clone_outcomes() {
    let ok = clone_outcome(None, false, "/o/site").ok().unwrap();
    assert!(!ok.cancelled);
    assert_eq!(ok.message, "دانلود با موفقیت انجام شد.\nپوشه: /o/site");
    let c = clone_outcome(Some("دانلود توسط کاربر لغو شد."), false, "/o/site").ok().unwrap();
    assert!(c.cancelled);
    assert_eq!(c.message, "دانلود لغو شد. پوشه ناقص باقی ماند:\n/o/site");
    let c2 = clone_outcome(Some("network down"), true, "/o").ok().unwrap();
    assert!(c2.cancelled);
    assert_eq!(clone_outcome(Some("network down"), false, "/o").err(), Some("network down".to_string()));
}

#[test]
fn one_download_at_a_time() {
    let mut g = DownloadGate::new();
    assert_eq!(g.request_cancel(), Err("دانلود فعالی وجود ندارد.".to_string()));
    assert!(g.begin_discovery().is_ok());
    assert_eq!(g.begin_download(), Err("یک دانلود دیگر در حال اجراست.".to_string()));
    assert_eq!(g.begin_discovery(), Err("یک عملیات دانلود/کشف دیگر در حال اجراست.".to_string()));
    assert!(g.request_cancel().is_ok());
    assert!(g.is_active() && g.cancel_requested());
    g.end();
    assert!(!g.is_active() && !g.cancel_requested());
    assert!(g.begin_download().is_ok());
    assert!(!g.cancel_requested());
}

fn request() -> DownloadRequest {
    DownloadRequest {
        url: "example.com".to_string(),
        save_dir: "/home/u".to_string(),
        out_name: "site".to_string(),
        max_pages: 0,
        max_depth: 4,
        concurrency: 0,
        include_external_assets: true,
        follow_external_pages: false,
        zip: true,
        block_tracking: true,
        report_broken_links: false,
        planned_pages: Some(vec!["https://example.com/a".to_string()]),
        resume: false,
    }
}

#[test]
fn front_end_requests_become_options() {
    let d = discover_options_for(
        &DiscoverRequest {
            url: "example.com".to_string(),
            max_pages_cap: 10000,
            max_depth: 7,
            follow_external_pages: true,
            block_tracking: false,
        },
        "https://example.com/",
    );
    assert_eq!((d.max_pages_cap, d.max_depth, d.timeout_secs), (5000, 7, 25));
    assert_eq!(d.user_agent, "webcloner-gui/1.0 (+offline mirror tool)");
    let req = request();
    let c = crawl_options_for(&req, "https://example.com/", "/home/u/site");
    assert_eq!((c.max_pages, c.concurrency, c.timeout_secs), (1, 1, 30));
    assert_eq!(c.out_dir, "/home/u/site");
    assert_eq!(c.planned_pages, Some(vec!["https://example.com/a".to_string()]));
    let mut s = empty_settings();
    remember_download(&mut s, &req);
    assert_eq!(s.save_dir, Some("/home/u".to_string()));
    assert_eq!(s.max_pages, Some(0));
    assert_eq!(s.zip, Some(true));
    assert_eq!(s.port, Some(8080));
}

fn saved_state() -> JobState {
    JobState {
        version: 1,
        start_url: "https://example.com/".to_string(),
        site_host: "example.com".to_string(),
        planned_pages: vec!["a".to_string(), "b".to_string()],
        done_pages: vec!["a".to_string()],
        planned_assets: vec![],
        done_assets: vec!["x".to_string(), "y".to_string(), "z".to_string()],
        url_map: vec![],
        options: JobOptionsSnapshot {
            include_external_assets: true,
            follow_external_pages: false,
            concurrency: 8,
            timeout_secs: 30,
            user_agent: "ua".to_string(),
            block_tracking: true,
            report_broken_links: true,
        },
        phase: "running".to_string(),
        updated_at: 0,
    }
}

#[test]
fn resume_information() {
    let st = saved_state();
    let info = resume_info("/home/u/site", Some(&st));
    assert!(info.available);
    assert_eq!(info.out_dir, Some("/home/u/site".to_string()));
    assert_eq!((info.planned_pages, info.done_pages, info.done_assets), (2, 1, 3));
    assert_eq!(info.message, "دانلود ناتمام پیدا شد: 1/2 صفحه و 3 فایل ذخیره‌شده.");
    let none = resume_info("/home/u/site", None);
    assert!(!none.available && none.out_dir.is_none());
    assert_eq!(none.message, "وضعیت ادامه‌ای وجود ندارد.");
}

#[test]
fn desktop_packages_and_default_folders() {
    assert_eq!(package_dir("/home/u/.webcloner", "123"), "/home/u/.webcloner/desktop-packages/site-123");
    assert_eq!(
        package_message("/o"),
        "پوشه آماده دسکتاپ ساخته شد:\n/o\nسایت در dist/ کپی شد. راهنما: README-NEXT.txt"
    );
    assert!(package_readme("/o", "/s").contains("cd \"/o\"\n   .\\package.ps1 \"/s\""));
    assert_eq!(documents_dir("/home/u"), "/home/u/Documents");
    assert_eq!(default_save_dir(Some("/home/u"), true, None, "/w"), "/home/u/Documents");
    assert_eq!(default_save_dir(Some("/home/u"), false, Some("/h"), "/w"), "/home/u");
    assert_eq!(default_save_dir(None, false, Some("/h"), "/w"), "/h");
    assert_eq!(default_save_dir(None, false, None, "/w"), "/w");
}

#[test]
fn url_pattern_edge_cases() {
    assert_eq!(extract_local_refs("url( img/a.png )", true), vec!["img/a.png "]);
    assert_eq!(extract_local_refs("url(  \"a\" b) url(x)", true), vec!["x"]);
    assert_eq!(extract_local_refs("url('a.png\" ) url(b)", true), vec!["a.png", "b"]);
    assert_eq!(extract_local_refs("url()url(c)", true), vec!["c"]);
    assert_eq!(extract_local_refs("url( \t\"d.png\"\n) url(e f)", true), vec!["d.png", "e f"]);
    assert!(extract_local_refs("url(a'b)", true).is_empty());
    assert_eq!(extract_local_refs("a{b:url(\"q.png\")};c{url(  )}", true), vec!["q.png", " "]);
    assert_eq!(extract_local_refs("url(\"x)", true), vec!["x"]);
}

#[test]
fn attribute_pattern_edge_cases() {
    assert_eq!(extract_local_refs("<a HREF = \"x.html\">", false), vec!["x.html"]);
    assert_eq!(extract_local_refs("<img data-src=\"d.png\" src='s.png'>", false), vec!["d.png", "s.png"]);
    assert!(extract_local_refs("<a href=\"\">", false).is_empty());
    assert!(extract_local_refs("<a hrefx=\"no\" href=\"\"a\"\">", false).is_empty());
    assert_eq!(extract_local_refs("<x src= \"\" src=\"ok\">", false), vec!["ok"]);
    assert_eq!(extract_local_refs("<img srcset=\"a.png 1x\" src=\"b.png\">", false), vec!["b.png"]);
}
