use webcloner::bundled_runtimes::{is_bare_command_name, RuntimeProbe, RuntimesLocator};
use webcloner::local_server::{
    build_project_scan, find_csproj, plan_start, validate_dir, Launch, ServerBackend, ServerError,
    ServerState,
};
use webcloner::net_util::{candidate_port, find_free_port, PortError};

fn probe(files: &[&str], php: bool, dotnet: bool) -> RuntimeProbe {
    RuntimeProbe {
        windows: false,
        existing_files: files.iter().map(|s| s.to_string()).collect(),
        php_on_path: php,
        dotnet_on_path: dotnet,
    }
}

fn strings(v: &[&str]) -> Vec<String> {
    v.iter().map(|s| s.to_string()).collect()
}

#[test]
fn search_roots_are_kept_once() {
    let mut loc = RuntimesLocator::new();
    loc.add_search_root("/app/runtimes");
    loc.add_search_root("/app/runtimes/");
    loc.add_search_root("/app/./runtimes");
    loc.add_search_root("/opt/rt");
    assert_eq!(loc.candidates(false, false), strings(&["/app/runtimes/dotnet/dotnet", "/opt/rt/dotnet/dotnet"]));
    assert_eq!(
        loc.candidates(true, false),
        strings(&[
            "/app/runtimes/php/php",
            "/app/runtimes/php/bin/php",
            "/opt/rt/php/php",
            "/opt/rt/php/bin/php",
        ])
    );
}

#[test]
fn bundled_runtime_wins_over_path() {
    let mut loc = RuntimesLocator::new();
    loc.add_search_root("/app/runtimes");
    let p = probe(&["/app/runtimes/php/bin/php"], true, false);
    assert_eq!(loc.resolve_php(&p), Some("/app/runtimes/php/bin/php".to_string()));
    assert!(loc.php_available(&p));
    assert_eq!(loc.bundled_php_note(&p), "PHP داخلی برنامه (بدون نیاز به PATH)");
    assert_eq!(loc.resolve_dotnet(&p), None);
    assert!(!loc.dotnet_available(&p));
    assert_eq!(loc.bundled_dotnet_note(&p), ".NET داخلی پیدا نشد — scripts/setup-runtimes.ps1 را اجرا کنید");
}

#[test]
fn path_runtime_when_nothing_is_bundled() {
    let loc = RuntimesLocator::new();
    let p = probe(&[], true, true);
    assert_eq!(loc.resolve_php(&p), Some("php".to_string()));
    assert_eq!(loc.bundled_php_note(&p), "PHP از PATH سیستم");
    assert_eq!(loc.resolve_dotnet(&p), Some("dotnet".to_string()));
    assert_eq!(loc.bundled_dotnet_note(&p), ".NET از PATH سیستم");
    let none = probe(&[], false, false);
    assert_eq!(loc.bundled_php_note(&none), "PHP داخلی پیدا نشد — یک‌بار scripts/setup-runtimes.ps1 را اجرا کنید");
}

#[test]
fn bare_command_names() {
    assert!(is_bare_command_name("php"));
    assert!(is_bare_command_name(""));
    assert!(!is_bare_command_name("/usr/bin/php"));
    assert!(!is_bare_command_name("bin/php"));
}

#[test]
fn project_scan_recommends_a_backend() {
    let loc = RuntimesLocator::new();
    let files = strings(&["/p/index.html", "/p/a/page.PHP", "/p/old.asp"]);
    let scan = build_project_scan(&files, &loc, &probe(&[], true, false));
    assert!(scan.has_html && scan.has_php && scan.has_asp);
    assert!(!scan.has_aspx && !scan.has_csproj);
    assert_eq!(scan.recommended, ServerBackend::Php);
    assert_eq!(scan.backends.len(), 4);
    assert_eq!(scan.backends[0].backend, ServerBackend::Static);
    assert_eq!(scan.backends[1].label, "PHP (داخلی)");
    assert!(scan.backends[1].available);
    assert!(!scan.backends[2].available);
    assert_eq!(
        scan.backends[2].note,
        ".NET داخلی پیدا نشد — scripts/setup-runtimes.ps1 را اجرا کنید. ASP کلاسیک (.asp) فقط به IIS نیاز دارد — از حالت استاتیک یا PHP استفاده کنید"
    );
    assert_eq!(scan.backends[3].label, "ASP کلاسیک (فقط مشاهده فایل)");
}

#[test]
fn dotnet_project_is_recommended_when_dotnet_is_found() {
    let loc = RuntimesLocator::new();
    let files = strings(&["/p/App.CSPROJ", "/p/x.php"]);
    let scan = build_project_scan(&files, &loc, &probe(&[], true, true));
    assert_eq!(scan.recommended, ServerBackend::AspNet);
    assert_eq!(scan.backends.len(), 3);
    assert!(scan.backends[2].available);
    let plain = build_project_scan(&strings(&["/p/readme.txt"]), &loc, &probe(&[], false, false));
    assert_eq!(plain.recommended, ServerBackend::Static);
    assert!(!plain.has_html);
}

#[test]
fn csproj_is_found_in_walk_order() {
    let files = strings(&["/p/a.cs", "/p/src/Web.csproj", "/p/Other.csproj"]);
    assert_eq!(find_csproj(&files), Some("/p/src/Web.csproj".to_string()));
    assert_eq!(find_csproj(&strings(&["/p/.csproj"])), None);
}

#[test]
fn starting_plans() {
    let loc = RuntimesLocator::new();
    let plan = plan_start("/site", 80, ServerBackend::Static, &loc, &probe(&[], false, false), &vec![])
        .ok()
        .unwrap();
    assert_eq!(plan.port, 1024);
    assert_eq!(plan.url, "http://127.0.0.1:1024");
    assert!(matches!(plan.launch, Launch::Static { ref dir } if dir == "/site"));

    let php = plan_start("/site", 8080, ServerBackend::Php, &loc, &probe(&[], false, false), &vec![]);
    assert!(matches!(php, Err(ServerError::PhpUnavailable)));

    let files = strings(&["/site/api/Api.csproj"]);
    let asp = plan_start("/site", 5000, ServerBackend::AspNet, &loc, &probe(&[], false, true), &files)
        .ok()
        .unwrap();
    assert_eq!(asp.url, "http://127.0.0.1:5000");
    match asp.launch {
        Launch::AspNet { dotnet, project_dir } => {
            assert_eq!(dotnet, "dotnet");
            assert_eq!(project_dir, "/site/api");
        }
        _ => panic!("expected an ASP.NET launch"),
    }
    let no_proj = plan_start("/site", 5000, ServerBackend::AspNet, &loc, &probe(&[], false, true), &vec![]);
    assert!(matches!(no_proj, Err(ServerError::NoCsproj)));
    let no_dotnet = plan_start("/site", 5000, ServerBackend::AspNet, &loc, &probe(&[], false, false), &files);
    assert!(matches!(no_dotnet, Err(ServerError::DotnetUnavailable)));
}

#[test]
fn folder_checks_and_messages() {
    let missing = validate_dir("/nope", false, false);
    assert_eq!(missing.err().unwrap().message(), "پوشه وجود ندارد: /nope");
    let file = validate_dir("/etc/passwd", true, false);
    assert_eq!(file.err().unwrap().message(), "مسیر انتخاب‌شده پوشه نیست: /etc/passwd");
    assert!(validate_dir("/tmp", true, true).is_ok());
    assert_eq!(ServerError::NoCsproj.message(), "فایل .csproj در پروژه پیدا نشد.");
}

#[test]
fn server_state_refuses_overlapping_requests() {
    let mut st = ServerState::new();
    assert!(st.begin().is_ok());
    let second = st.begin();
    assert_eq!(second.err().unwrap().message(), "عملیات سرور در حال انجام است — لطفاً چند ثانیه صبر کنید.");
    assert!(st.status().busy);
    let loc = RuntimesLocator::new();
    let plan = plan_start("/site", 8080, ServerBackend::Static, &loc, &probe(&[], false, false), &vec![])
        .ok()
        .unwrap();
    st.on_started(&plan, "/site", ServerBackend::Static);
    st.finish();
    let s = st.status();
    assert!(s.running && !s.busy);
    assert_eq!(s.url, Some("http://127.0.0.1:8080".to_string()));
    assert_eq!(s.project_dir, Some("/site".to_string()));
    assert_eq!(s.port, Some(8080));
    assert_eq!(s.backend, Some(ServerBackend::Static));
    st.on_stopped();
    let s = st.status();
    assert!(!s.running && s.url.is_none() && s.port.is_none() && s.backend.is_none());
}

#[test]
fn finds_free_port_when_preferred_busy() {
    let busy = 40000u16;
    let free = find_free_port(busy, |p| p != busy).ok().unwrap();
    assert_ne!(free, busy);
    assert_eq!(free, 40001);
}

#[test]
fn port_search_wraps_and_clamps() {
    assert_eq!(find_free_port(80, |_| true).ok(), Some(1024));
    assert_eq!(find_free_port(65535, |p| p != 65535).ok(), Some(1024));
    assert_eq!(candidate_port(65535, 2), 1025);
    let none = find_free_port(3000, |_| false);
    assert!(matches!(none, Err(PortError::NoFreePort)));
    assert_eq!(PortError::NoFreePort.message(), "هیچ پورت آزادی بین 1024 تا 65535 پیدا نشد.");
}

#[test]
fn port_search_covers_the_whole_range() {
    assert_eq!(find_free_port(1024, |p| p == 65000).ok(), Some(65000));
    assert_eq!(find_free_port(30000, |p| p == 29999).ok(), Some(29999));
}

#[test]
fn windows_candidates_are_exe_files() {
    let mut loc = RuntimesLocator::new();
    loc.add_search_root("r");
    assert_eq!(loc.candidates(false, true), strings(&["r/dotnet/dotnet.exe", "r/dotnet-win/dotnet.exe"]));
    assert_eq!(loc.candidates(true, true), strings(&["r/php/php.exe", "r/php-win/php.exe"]));
    let mut p = probe(&["r/dotnet/dotnet.exe", "r/php-win/php.exe"], false, false);
    p.windows = true;
    assert_eq!(loc.resolve_dotnet(&p), Some("r/dotnet/dotnet.exe".to_string()));
    assert_eq!(loc.resolve_php(&p), Some("r/php-win/php.exe".to_string()));
    assert_eq!(loc.bundled_dotnet_note(&p), "ASP.NET با .NET داخلی برنامه");
    let mut second = probe(&["r/dotnet-win/dotnet.exe"], false, true);
    second.windows = true;
    assert_eq!(loc.resolve_dotnet(&second), Some("r/dotnet-win/dotnet.exe".to_string()));
    let mut unix = probe(&["r/dotnet/dotnet.exe"], false, false);
    unix.windows = false;
    assert_eq!(loc.resolve_dotnet(&unix), None);
}
