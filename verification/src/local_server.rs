//! Serving a local project folder: what the folder holds, which backend
//! suits it, and the bookkeeping of the one server that may run at a time.
//!
//! Walking the folder, binding sockets and spawning processes happen in the
//! caller; this module decides on the values they produce.
use vstd::prelude::*;
use crate::bundled_runtimes::{
    dotnet_note, php_note, resolved, ProbeView, RuntimeProbe, RuntimesLocator,
};
use crate::keyed::{same_str, strings_view};
use crate::paths::{file_name, file_name_of, parent_len, parent_str};
use crate::text::{
    ascii_lowercase, cat, chars_of, decimal, decimal_string, string_from_chars, to_ascii_lower,
    to_owned_string,
};
use crate::urls::opt_str_view;
use crate::utils::{split_ext, split_ext_chars};

verus! {

/// How a project folder is served.
#[derive(Clone, Copy, PartialEq, Eq, Structural, Debug)]
pub enum ServerBackend {
    Static,
    Php,
    AspNet,
}

/// One way of serving the project, as offered to the user.
pub struct DetectedBackend {
    pub backend: ServerBackend,
    pub available: bool,
    pub label: String,
    pub note: String,
}

/// What a project folder holds and how it can be served.
pub struct ProjectScan {
    pub has_html: bool,
    pub has_php: bool,
    pub has_asp: bool,
    pub has_aspx: bool,
    pub has_csproj: bool,
    pub recommended: ServerBackend,
    pub backends: Vec<DetectedBackend>,
}

/// The state of the local server as reported to the user.
pub struct ServerStatus {
    pub running: bool,
    pub url: Option<String>,
    pub project_dir: Option<String>,
    pub backend: Option<ServerBackend>,
    pub port: Option<u16>,
    pub busy: bool,
}

/// Why a server request was refused.
pub enum ServerError {
    /// Another start or stop is under way.
    Busy,
    /// The folder does not exist.
    DirMissing(String),
    /// The path exists but is no folder.
    NotADir(String),
    /// No PHP executable was found.
    PhpUnavailable,
    /// No .NET executable was found.
    DotnetUnavailable,
    /// The project holds no `.csproj` file.
    NoCsproj,
}

pub open spec fn busy_message() -> Seq<char> {
    "عملیات سرور در حال انجام است — لطفاً چند ثانیه صبر کنید."@
}

pub open spec fn error_text(e: ServerError) -> Seq<char> {
    match e {
        ServerError::Busy => busy_message(),
        ServerError::DirMissing(d) => "پوشه وجود ندارد: "@ + d@,
        ServerError::NotADir(d) => "مسیر انتخاب‌شده پوشه نیست: "@ + d@,
        ServerError::PhpUnavailable => "PHP در دسترس نیست. scripts/setup-runtimes.ps1 را اجرا کنید."@,
        ServerError::DotnetUnavailable => ".NET در دسترس نیست. scripts/setup-runtimes.ps1 را اجرا کنید."@,
        ServerError::NoCsproj => "فایل .csproj در پروژه پیدا نشد."@,
    }
}

impl ServerError {
    /// The message shown to the user.
    pub fn message(&self) -> (r: String)
        ensures
            r@ == error_text(*self),
    {
        match self {
            ServerError::Busy => to_owned_string("عملیات سرور در حال انجام است — لطفاً چند ثانیه صبر کنید."),
            ServerError::DirMissing(d) => cat("پوشه وجود ندارد: ", d.as_str()),
            ServerError::NotADir(d) => cat("مسیر انتخاب‌شده پوشه نیست: ", d.as_str()),
            ServerError::PhpUnavailable => to_owned_string("PHP در دسترس نیست. scripts/setup-runtimes.ps1 را اجرا کنید."),
            ServerError::DotnetUnavailable => to_owned_string(".NET در دسترس نیست. scripts/setup-runtimes.ps1 را اجرا کنید."),
            ServerError::NoCsproj => to_owned_string("فایل .csproj در پروژه پیدا نشد."),
        }
    }
}

/// `Path::extension`, lowercased (ASCII).
pub open spec fn ext_lower(p: Seq<char>) -> Option<Seq<char>> {
    match file_name(p) {
        Some(n) => match split_ext(n).1 {
            Some(e) => Some(ascii_lowercase(e)),
            None => None,
        },
        None => None,
    }
}

/// A file that makes the project an HTML site.
pub open spec fn marks_html(p: Seq<char>) -> bool {
    ||| file_name(p) == Some("index.html"@)
    ||| ext_lower(p) == Some("html"@)
    ||| ext_lower(p) == Some("htm"@)
}

/// Some file has the given (lowercase) extension.
pub open spec fn any_ext(files: Seq<Seq<char>>, e: Seq<char>) -> bool {
    exists|i: int| 0 <= i < files.len() && #[trigger] ext_lower(files[i]) == Some(e)
}

pub open spec fn any_html(files: Seq<Seq<char>>) -> bool {
    exists|i: int| 0 <= i < files.len() && #[trigger] marks_html(files[i])
}

/// The extension of a path, lowercased.
pub(crate) fn ext_lower_of(p: &str) -> (r: Option<String>)
    ensures
        opt_str_view(r) == ext_lower(p@),
{
    let v = chars_of(p);
    match file_name_of(v.as_slice()) {
        Some(n) => {
            let (_stem, ext) = split_ext_chars(n.as_slice());
            match ext {
                Some(e) => {
                    let l = to_ascii_lower(e.as_slice());
                    Some(string_from_chars(l.as_slice()))
                },
                None => None,
            }
        },
        None => None,
    }
}

fn is_ext(e: &Option<String>, want: &str) -> (r: bool)
    ensures
        r == (opt_str_view(*e) == Some(want@)),
{
    match e {
        Some(s) => same_str(s.as_str(), want),
        None => false,
    }
}

/// The kinds of file found in a project.
pub struct FileKinds {
    pub has_html: bool,
    pub has_php: bool,
    pub has_asp: bool,
    pub has_aspx: bool,
    pub has_csproj: bool,
}

/// Classifies the files of a project (their paths, as the walk found them).
pub fn scan_file_kinds(files: &Vec<String>) -> (k: FileKinds)
    ensures
        k.has_html == any_html(strings_view(files@)),
        k.has_php == any_ext(strings_view(files@), "php"@),
        k.has_asp == any_ext(strings_view(files@), "asp"@),
        k.has_aspx == any_ext(strings_view(files@), "aspx"@),
        k.has_csproj == any_ext(strings_view(files@), "csproj"@),
{
    let ghost fs = strings_view(files@);
    let mut k = FileKinds {
        has_html: false,
        has_php: false,
        has_asp: false,
        has_aspx: false,
        has_csproj: false,
    };
    let mut i: usize = 0;
    while i < files.len()
        invariant
            i <= files.len(),
            fs == strings_view(files@),
            k.has_html == exists|j: int| 0 <= j < i && #[trigger] marks_html(fs[j]),
            k.has_php == exists|j: int| 0 <= j < i && #[trigger] ext_lower(fs[j]) == Some("php"@),
            k.has_asp == exists|j: int| 0 <= j < i && #[trigger] ext_lower(fs[j]) == Some("asp"@),
            k.has_aspx == exists|j: int| 0 <= j < i && #[trigger] ext_lower(fs[j]) == Some("aspx"@),
            k.has_csproj == exists|j: int| 0 <= j < i && #[trigger] ext_lower(fs[j]) == Some("csproj"@),
        decreases files.len() - i,
    {
        let p = files[i].as_str();
        assert(fs[i as int] == p@);
        let v = chars_of(p);
        let name = file_name_of(v.as_slice());
        let is_index = match &name {
            Some(n) => {
                let s = string_from_chars(n.as_slice());
                same_str(s.as_str(), "index.html")
            },
            None => false,
        };
        assert(is_index == (file_name(p@) == Some("index.html"@)));
        let e = ext_lower_of(p);
        let html = is_index || is_ext(&e, "html") || is_ext(&e, "htm");
        let php = is_ext(&e, "php");
        let asp = is_ext(&e, "asp");
        let aspx = is_ext(&e, "aspx");
        let csproj = is_ext(&e, "csproj");
        assert(html == marks_html(fs[i as int]));
        k.has_html = k.has_html || html;
        k.has_php = k.has_php || php;
        k.has_asp = k.has_asp || asp;
        k.has_aspx = k.has_aspx || aspx;
        k.has_csproj = k.has_csproj || csproj;
        i = i + 1;
    }
    k
}

/// A backend as offered: kind, availability, label and note.
pub open spec fn backend_view(d: DetectedBackend) -> (ServerBackend, bool, Seq<char>, Seq<char>) {
    (d.backend, d.available, d.label@, d.note@)
}

pub open spec fn backends_view(v: Seq<DetectedBackend>) -> Seq<(ServerBackend, bool, Seq<char>, Seq<char>)> {
    v.map_values(|d: DetectedBackend| backend_view(d))
}

/// Classic ASP pages without a .NET project cannot run here.
pub open spec fn classic_asp_only(k: FileKinds) -> bool {
    k.has_asp && !k.has_csproj
}

pub open spec fn classic_asp_note() -> Seq<char> {
    "ASP کلاسیک (.asp) فقط به IIS نیاز دارد — از حالت استاتیک یا PHP استفاده کنید"@
}

/// The note on the ASP.NET backend.
pub open spec fn aspnet_note(k: FileKinds, roots: Seq<Seq<char>>, probe: ProbeView) -> Seq<char> {
    if classic_asp_only(k) {
        dotnet_note(roots, probe) + ". "@ + classic_asp_note()
    } else {
        dotnet_note(roots, probe)
    }
}

/// The backends offered for a project, in order.
pub open spec fn offered_backends(k: FileKinds, roots: Seq<Seq<char>>, probe: ProbeView) -> Seq<
    (ServerBackend, bool, Seq<char>, Seq<char>),
> {
    let php_ok = resolved(roots, probe, true) is Some;
    let dotnet_ok = resolved(roots, probe, false) is Some;
    let base = seq![
        (ServerBackend::Static, true, "استاتیک (HTML/CSS/JS)"@, "برای سایت‌های کلون‌شده و فایل‌های front-end"@),
        (ServerBackend::Php, php_ok, "PHP (داخلی)"@, php_note(roots, probe)),
        (ServerBackend::AspNet, dotnet_ok && k.has_csproj, "ASP.NET (داخلی)"@, aspnet_note(k, roots, probe)),
    ];
    if classic_asp_only(k) {
        base.push(
            (ServerBackend::Static, true, "ASP کلاسیک (فقط مشاهده فایل)"@, "فایل .asp اجرا نمی‌شود؛ فقط محتوای خام سرو می‌شود"@),
        )
    } else {
        base
    }
}

/// The backend suggested for a project: ASP.NET for a .NET project when
/// .NET is found, else PHP for PHP files when PHP is found, else static.
pub open spec fn recommended_backend(k: FileKinds, php_ok: bool, dotnet_ok: bool) -> ServerBackend {
    if k.has_csproj && dotnet_ok {
        ServerBackend::AspNet
    } else if k.has_php && php_ok {
        ServerBackend::Php
    } else {
        ServerBackend::Static
    }
}

fn offer(backend: ServerBackend, available: bool, label: &str, note: String) -> (d: DetectedBackend)
    ensures
        backend_view(d) == (backend, available, label@, note@),
{
    DetectedBackend { backend, available, label: to_owned_string(label), note }
}

/// What a project holds and how it can be served, from the files the walk
/// found (at most ten levels deep) and what the runtime probe found.
pub fn build_project_scan(files: &Vec<String>, runtimes: &RuntimesLocator, probe: &RuntimeProbe) -> (r: ProjectScan)
    ensures
        r.has_html == any_html(strings_view(files@)),
        r.has_php == any_ext(strings_view(files@), "php"@),
        r.has_asp == any_ext(strings_view(files@), "asp"@),
        r.has_aspx == any_ext(strings_view(files@), "aspx"@),
        r.has_csproj == any_ext(strings_view(files@), "csproj"@),
        r.recommended == recommended_backend(
            FileKinds { has_html: r.has_html, has_php: r.has_php, has_asp: r.has_asp, has_aspx: r.has_aspx, has_csproj: r.has_csproj },
            resolved(runtimes@, probe@, true) is Some,
            resolved(runtimes@, probe@, false) is Some,
        ),
        backends_view(r.backends@) == offered_backends(
            FileKinds { has_html: r.has_html, has_php: r.has_php, has_asp: r.has_asp, has_aspx: r.has_aspx, has_csproj: r.has_csproj },
            runtimes@,
            probe@,
        ),
{
    let k = scan_file_kinds(files);
    let php_ok = runtimes.php_available(probe);
    let dotnet_ok = runtimes.dotnet_available(probe);
    let classic = k.has_asp && !k.has_csproj;
    let dotnet_text = runtimes.bundled_dotnet_note(probe);
    let asp_text = if classic {
        let a = cat(dotnet_text.as_str(), ". ");
        cat(a.as_str(), "ASP کلاسیک (.asp) فقط به IIS نیاز دارد — از حالت استاتیک یا PHP استفاده کنید")
    } else {
        dotnet_text
    };
    let mut backends: Vec<DetectedBackend> = Vec::new();
    backends.push(offer(ServerBackend::Static, true, "استاتیک (HTML/CSS/JS)", to_owned_string("برای سایت‌های کلون‌شده و فایل‌های front-end")));
    backends.push(offer(ServerBackend::Php, php_ok, "PHP (داخلی)", runtimes.bundled_php_note(probe)));
    backends.push(offer(ServerBackend::AspNet, dotnet_ok && k.has_csproj, "ASP.NET (داخلی)", asp_text));
    if classic {
        backends.push(offer(ServerBackend::Static, true, "ASP کلاسیک (فقط مشاهده فایل)", to_owned_string("فایل .asp اجرا نمی‌شود؛ فقط محتوای خام سرو می‌شود")));
    }
    let recommended = if k.has_csproj && dotnet_ok {
        ServerBackend::AspNet
    } else if k.has_php && php_ok {
        ServerBackend::Php
    } else {
        ServerBackend::Static
    };
    assert(backends_view(backends@) =~= offered_backends(k, runtimes@, probe@));
    ProjectScan {
        has_html: k.has_html,
        has_php: k.has_php,
        has_asp: k.has_asp,
        has_aspx: k.has_aspx,
        has_csproj: k.has_csproj,
        recommended,
        backends,
    }
}

/// The first file with a `.csproj` extension (any case), in walk order.
pub open spec fn first_csproj(files: Seq<Seq<char>>) -> Option<Seq<char>>
    decreases files.len(),
{
    if files.len() == 0 {
        None
    } else if ext_lower(files[0]) == Some("csproj"@) {
        Some(files[0])
    } else {
        first_csproj(files.drop_first())
    }
}

/// The first `.csproj` file among those the walk found (at most four
/// levels deep).
pub fn find_csproj(files: &Vec<String>) -> (r: Option<String>)
    ensures
        opt_str_view(r) == first_csproj(strings_view(files@)),
{
    let ghost fs = strings_view(files@);
    let mut i: usize = 0;
    assert(fs.skip(0) =~= fs);
    while i < files.len()
        invariant
            i <= files.len(),
            fs == strings_view(files@),
            first_csproj(fs.skip(i as int)) == first_csproj(fs),
        decreases files.len() - i,
    {
        assert(fs.skip(i as int)[0] == files@[i as int]@);
        assert(fs.skip(i as int).drop_first() =~= fs.skip(i + 1));
        let e = ext_lower_of(files[i].as_str());
        if is_ext(&e, "csproj") {
            return Some(to_owned_string(files[i].as_str()));
        }
        i = i + 1;
    }
    assert(fs.skip(i as int) =~= Seq::<Seq<char>>::empty());
    None
}

/// Checks what the caller found at a project path.
pub fn validate_dir(dir: &str, exists: bool, is_dir: bool) -> (r: Result<(), ServerError>)
    ensures
        !exists ==> (r matches Err(ServerError::DirMissing(d)) && d@ == dir@),
        exists && !is_dir ==> (r matches Err(ServerError::NotADir(d)) && d@ == dir@),
        exists && is_dir ==> r is Ok,
{
    if !exists {
        Err(ServerError::DirMissing(to_owned_string(dir)))
    } else if !is_dir {
        Err(ServerError::NotADir(to_owned_string(dir)))
    } else {
        Ok(())
    }
}

/// Ports below 1024 are raised to 1024.
pub open spec fn clamp_port(port: u16) -> u16 {
    if port < 1024 {
        1024
    } else {
        port
    }
}

/// The address of a server on a local port.
pub open spec fn local_url(port: u16) -> Seq<char> {
    "http://127.0.0.1:"@ + decimal(port as nat)
}

/// What the caller launches.
pub enum Launch {
    /// Serve the folder's files.
    Static { dir: String },
    /// `php -S 127.0.0.1:<port> -t <dir>`.
    Php { php: String, dir: String },
    /// `dotnet run --urls <url>` in the project's folder.
    AspNet { dotnet: String, project_dir: String },
}

/// A server start that passed every check.
pub struct StartPlan {
    pub port: u16,
    pub url: String,
    pub launch: Launch,
}

/// The launch a start request leads to, or why it is refused: PHP needs a
/// PHP executable; ASP.NET needs a .NET executable and a `.csproj` file,
/// whose folder it runs in.
pub open spec fn planned_launch(
    dir: Seq<char>,
    backend: ServerBackend,
    roots: Seq<Seq<char>>,
    probe: ProbeView,
    files: Seq<Seq<char>>,
) -> Result<(u8, Seq<char>, Seq<char>), ServerError> {
    match backend {
        ServerBackend::Static => Ok((0u8, Seq::empty(), dir)),
        ServerBackend::Php => match resolved(roots, probe, true) {
            Some(php) => Ok((1u8, php, dir)),
            None => Err(ServerError::PhpUnavailable),
        },
        ServerBackend::AspNet => match resolved(roots, probe, false) {
            Some(dotnet) => match first_csproj(files) {
                Some(c) => Ok((2u8, dotnet, parent_str(c))),
                None => Err(ServerError::NoCsproj),
            },
            None => Err(ServerError::DotnetUnavailable),
        },
    }
}

pub open spec fn launch_view(l: Launch) -> (u8, Seq<char>, Seq<char>) {
    match l {
        Launch::Static { dir } => (0u8, Seq::empty(), dir@),
        Launch::Php { php, dir } => (1u8, php@, dir@),
        Launch::AspNet { dotnet, project_dir } => (2u8, dotnet@, project_dir@),
    }
}

/// Plans a server start for a folder the caller checked, on `port`
/// (raised to 1024 at least), with the runtimes found and the files the
/// walk found (for the `.csproj`).
pub fn plan_start(
    dir: &str,
    port: u16,
    backend: ServerBackend,
    runtimes: &RuntimesLocator,
    probe: &RuntimeProbe,
    files: &Vec<String>,
) -> (r: Result<StartPlan, ServerError>)
    ensures
        match planned_launch(dir@, backend, runtimes@, probe@, strings_view(files@)) {
            Ok(l) => (r matches Ok(plan) && plan.port == clamp_port(port) && plan.url@ == local_url(
                clamp_port(port),
            ) && launch_view(plan.launch) == l),
            Err(e) => (r matches Err(f) && f == e),
        },
{
    let port = if port < 1024 {
        1024
    } else {
        port
    };
    let url = cat("http://127.0.0.1:", decimal_string(port as u64).as_str());
    let launch = match backend {
        ServerBackend::Static => Launch::Static { dir: to_owned_string(dir) },
        ServerBackend::Php => match runtimes.resolve_php(probe) {
            Some(php) => Launch::Php { php, dir: to_owned_string(dir) },
            None => {
                return Err(ServerError::PhpUnavailable);
            },
        },
        ServerBackend::AspNet => match runtimes.resolve_dotnet(probe) {
            Some(dotnet) => match find_csproj(files) {
                Some(c) => {
                    let v = chars_of(c.as_str());
                    let n = parent_len(v.as_slice());
                    let pv = crate::text::sub_vec(v.as_slice(), 0, n);
                    Launch::AspNet { dotnet, project_dir: string_from_chars(pv.as_slice()) }
                },
                None => {
                    return Err(ServerError::NoCsproj);
                },
            },
            None => {
                return Err(ServerError::DotnetUnavailable);
            },
        },
    };
    Ok(StartPlan { port, url, launch })
}

/// The server's bookkeeping: whether one runs, where, and whether a start
/// or stop is under way.
pub struct ServerState {
    running: bool,
    url: Option<String>,
    dir: Option<String>,
    backend: Option<ServerBackend>,
    port: Option<u16>,
    busy: bool,
}

pub struct ServerStateView {
    pub running: bool,
    pub url: Option<Seq<char>>,
    pub dir: Option<Seq<char>>,
    pub backend: Option<ServerBackend>,
    pub port: Option<u16>,
    pub busy: bool,
}

impl View for ServerState {
    type V = ServerStateView;

    closed spec fn view(&self) -> ServerStateView {
        ServerStateView {
            running: self.running,
            url: opt_str_view(self.url),
            dir: opt_str_view(self.dir),
            backend: self.backend,
            port: self.port,
            busy: self.busy,
        }
    }
}

/// What `status` reports of a state.
pub open spec fn status_view(s: ServerStatus) -> ServerStateView {
    ServerStateView {
        running: s.running,
        url: opt_str_view(s.url),
        dir: opt_str_view(s.project_dir),
        backend: s.backend,
        port: s.port,
        busy: s.busy,
    }
}

/// No server runs and nothing is recorded of one.
pub open spec fn idle_view(busy: bool) -> ServerStateView {
    ServerStateView { running: false, url: None, dir: None, backend: None, port: None, busy }
}

fn clone_opt(o: &Option<String>) -> (r: Option<String>)
    ensures
        opt_str_view(r) == opt_str_view(*o),
{
    match o {
        Some(s) => Some(to_owned_string(s.as_str())),
        None => None,
    }
}

impl ServerState {
    pub fn new() -> (s: ServerState)
        ensures
            s@ == idle_view(false),
    {
        ServerState { running: false, url: None, dir: None, backend: None, port: None, busy: false }
    }

    /// Starts a start or stop: refused, with nothing changed, while another
    /// is under way.
    pub fn begin(&mut self) -> (r: Result<(), ServerError>)
        ensures
            old(self)@.busy ==> (r matches Err(ServerError::Busy) && final(self)@ == old(self)@),
            !old(self)@.busy ==> r is Ok && final(self)@ == (ServerStateView { busy: true, ..old(self)@ }),
    {
        if self.busy {
            return Err(ServerError::Busy);
        }
        self.busy = true;
        Ok(())
    }

    /// Ends a start or stop, whatever its outcome.
    pub fn finish(&mut self)
        ensures
            final(self)@ == (ServerStateView { busy: false, ..old(self)@ }),
    {
        self.busy = false;
    }

    /// Whether a server runs that must be shut down before another starts.
    pub fn is_running(&self) -> (r: bool)
        ensures
            r == self@.running,
    {
        self.running
    }

    /// The running server (if any) was shut down.
    pub fn on_stopped(&mut self)
        ensures
            final(self)@ == idle_view(old(self)@.busy),
    {
        self.running = false;
        self.url = None;
        self.dir = None;
        self.backend = None;
        self.port = None;
    }

    /// The planned server was launched for `dir` with `backend`.
    pub fn on_started(&mut self, plan: &StartPlan, dir: &str, backend: ServerBackend)
        ensures
            final(self)@ == (ServerStateView {
                running: true,
                url: Some(plan.url@),
                dir: Some(dir@),
                backend: Some(backend),
                port: Some(plan.port),
                busy: old(self)@.busy,
            }),
    {
        self.running = true;
        self.url = Some(to_owned_string(plan.url.as_str()));
        self.dir = Some(to_owned_string(dir));
        self.backend = Some(backend);
        self.port = Some(plan.port);
    }

    /// The state as reported to the user.
    pub fn status(&self) -> (r: ServerStatus)
        ensures
            status_view(r) == self@,
    {
        ServerStatus {
            running: self.running,
            url: clone_opt(&self.url),
            project_dir: clone_opt(&self.dir),
            backend: self.backend,
            port: self.port,
            busy: self.busy,
        }
    }
}

} // verus!
