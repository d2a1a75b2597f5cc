//! The rules of the desktop front end: the start address, the output and
//! project folders, the settings file and its list of recent items, and
//! the messages shown after a clone or a server start.
use vstd::prelude::*;
use crate::broken_links::trim_leading_slashes;
use crate::local_server::ServerBackend;
use crate::paths::{has_root, push, push_path};
use crate::text::{
    cat, chars_of, decimal, decimal_string, has_infix, has_prefix, str_has_infix, str_has_prefix,
    string_from_chars, sub_vec, to_owned_string, trim, trim_bounds,
};
use crate::urls::WebUrl;

verus! {

/// `str::trim`.
pub fn trim_str(s: &str) -> (r: String)
    ensures
        r@ == trim(s@),
{
    let v = chars_of(s);
    let (a, b) = trim_bounds(v.as_slice());
    let t = sub_vec(v.as_slice(), a, b);
    string_from_chars(t.as_slice())
}

// ---------------------------------------------------------------------------
// The start address.
/// The address with `https://` put in front when it names no scheme.
pub open spec fn with_scheme(t: Seq<char>) -> Seq<char> {
    if has_prefix(t, "http://"@) || has_prefix(t, "https://"@) {
        t
    } else {
        "https://"@ + trim_leading_slashes(t)
    }
}

/// Normalises the address typed by the user: trimmed, given `https://`
/// when it has no scheme, and serialised as the `url` crate parses it.
pub fn normalize_start_url(input: &str) -> (r: Result<String, String>)
    ensures
        trim(input@).len() == 0 ==> (r matches Err(e) && e@ == "آدرس سایت خالی است."@),
        trim(input@).len() > 0 ==> match crate::urls::parsed_url(with_scheme(trim(input@))) {
            Some(u) => (r matches Ok(s) && s@ == u.href),
            None => (r matches Err(e) && e@ == "آدرس «"@ + input@ + "» معتبر نیست."@),
        },
{
    let trimmed = trim_str(input);
    if trimmed.unicode_len() == 0 {
        return Err(to_owned_string("آدرس سایت خالی است."));
    }
    let full = if str_has_prefix(trimmed.as_str(), "http://") || str_has_prefix(trimmed.as_str(), "https://") {
        trimmed
    } else {
        let v = chars_of(trimmed.as_str());
        let mut k: usize = 0;
        while k < v.len() && v[k] == '/'
            invariant
                k <= v.len(),
                v@ == trimmed@,
                crate::broken_links::slash_end(trimmed@, k as int) == crate::broken_links::slash_end(trimmed@, 0),
            decreases v.len() - k,
        {
            k = k + 1;
        }
        let rest = sub_vec(v.as_slice(), k, v.len());
        cat("https://", string_from_chars(rest.as_slice()).as_str())
    };
    match WebUrl::parse(full.as_str()) {
        Some(u) => Ok(to_owned_string(u.as_str())),
        None => {
            let a = cat("آدرس «", input);
            Err(cat(a.as_str(), "» معتبر نیست."))
        },
    }
}

// ---------------------------------------------------------------------------
// Folder names and paths.
/// Characters that cannot stand in a folder name; each becomes `_`.
pub open spec fn unsafe_folder_char(c: char) -> bool {
    c == '<' || c == '>' || c == ':' || c == '"' || c == '\\' || c == '|' || c == '?' || c == '*'
        || c == '/'
}

pub open spec fn folder_char(c: char) -> char {
    if unsafe_folder_char(c) {
        '_'
    } else {
        c
    }
}

/// First index at or after `i` that is not a `.` (or the length).
pub open spec fn dot_end(s: Seq<char>, i: int) -> int
    decreases s.len() - i,
{
    if 0 <= i < s.len() && s[i] == '.' {
        dot_end(s, i + 1)
    } else {
        i
    }
}

/// Index just past the last character before `j` that is not a `.`
/// (or `i`).
pub open spec fn dot_start_back(s: Seq<char>, i: int, j: int) -> int
    decreases j - i,
{
    if i < j && s[j - 1] == '.' {
        dot_start_back(s, i, j - 1)
    } else {
        j
    }
}

pub proof fn lemma_dot_end(s: Seq<char>, i: int)
    requires
        0 <= i <= s.len(),
    ensures
        i <= dot_end(s, i) <= s.len(),
        dot_end(s, i) < s.len() ==> s[dot_end(s, i)] != '.',
    decreases s.len() - i,
{
    if i < s.len() && s[i] == '.' {
        lemma_dot_end(s, i + 1);
    }
}

pub proof fn lemma_dot_start_back(s: Seq<char>, i: int, j: int)
    requires
        0 <= i <= j <= s.len(),
    ensures
        i <= dot_start_back(s, i, j) <= j,
        dot_start_back(s, i, j) > i ==> s[dot_start_back(s, i, j) - 1] != '.',
    decreases j - i,
{
    if i < j && s[j - 1] == '.' {
        lemma_dot_start_back(s, i, j - 1);
    }
}

/// `str::trim_matches('.')`.
pub open spec fn trim_dots(s: Seq<char>) -> Seq<char> {
    let a = dot_end(s, 0);
    s.subrange(a, dot_start_back(s, a, s.len() as int))
}

/// The folder name made of what the user typed: unsafe characters replaced
/// by `_`, whitespace and then dots trimmed at both ends, `cloned-site` when
/// nothing is left.
pub open spec fn sanitized_folder(name: Seq<char>) -> Seq<char> {
    let t = trim_dots(trim(name.map_values(|c: char| folder_char(c))));
    if t.len() == 0 {
        "cloned-site"@
    } else {
        t
    }
}

pub fn sanitize_folder_name(name: &str) -> (r: String)
    ensures
        r@ == sanitized_folder(name@),
{
    let v = chars_of(name);
    let mut cleaned: Vec<char> = Vec::new();
    let mut i: usize = 0;
    while i < v.len()
        invariant
            i <= v.len(),
            v@ == name@,
            cleaned@ == name@.take(i as int).map_values(|c: char| folder_char(c)),
        decreases v.len() - i,
    {
        let c = v[i];
        let d = if c == '<' || c == '>' || c == ':' || c == '"' || c == '\\' || c == '|' || c == '?'
            || c == '*' || c == '/' {
            '_'
        } else {
            c
        };
        cleaned.push(d);
        assert(name@.take(i + 1).map_values(|c: char| folder_char(c)) =~= name@.take(
            i as int,
        ).map_values(|c: char| folder_char(c)).push(folder_char(c)));
        i = i + 1;
    }
    assert(name@.take(v.len() as int) =~= name@);
    let (a, b) = trim_bounds(cleaned.as_slice());
    let t = sub_vec(cleaned.as_slice(), a, b);
    let mut x: usize = 0;
    while x < t.len() && t[x] == '.'
        invariant
            x <= t.len(),
            dot_end(t@, x as int) == dot_end(t@, 0),
        decreases t.len() - x,
    {
        x = x + 1;
    }
    let mut y: usize = t.len();
    while y > x && t[y - 1] == '.'
        invariant
            x <= y <= t.len(),
            dot_start_back(t@, x as int, y as int) == dot_start_back(t@, x as int, t.len() as int),
        decreases y,
    {
        y = y - 1;
    }
    if x == y {
        to_owned_string("cloned-site")
    } else {
        let u = sub_vec(t.as_slice(), x, y);
        string_from_chars(u.as_slice())
    }
}

/// An absolute path: one that starts at the root, or a drive path such as
/// `C:\` or `C:/` (one ASCII character, a colon, a separator).
pub open spec fn absolute_path(p: Seq<char>) -> bool {
    ||| has_root(p)
    ||| (p.len() >= 3 && (p[0] as u32) < 128 && p[1] == ':' && (p[2] == '\\' || p[2] == '/'))
}

pub fn is_absolute_path(path: &str) -> (r: bool)
    ensures
        r == absolute_path(path@),
{
    let v = chars_of(path);
    if v.len() > 0 && v[0] == '/' {
        return true;
    }
    v.len() >= 3 && (v[0] as u32) < 128 && v[1] == ':' && (v[2] == '\\' || v[2] == '/')
}

/// The folder a clone is saved under, as typed: trimmed, present and
/// absolute.
pub open spec fn save_base(save_dir: Seq<char>) -> Result<Seq<char>, Seq<char>> {
    let t = trim(save_dir);
    if t.len() == 0 {
        Err("محل ذخیره‌سازی را انتخاب کنید."@)
    } else if !absolute_path(t) {
        Err("مسیر ذخیره‌سازی باید کامل باشد. دوباره پوشه را انتخاب کنید."@)
    } else {
        Ok(t)
    }
}

pub open spec fn str_result_view(r: Result<String, String>) -> Result<Seq<char>, Seq<char>> {
    match r {
        Ok(s) => Ok(s@),
        Err(e) => Err(e@),
    }
}

/// Checks the save folder typed by the user; the caller then creates it
/// when missing.
pub fn check_save_base(save_dir: &str) -> (r: Result<String, String>)
    ensures
        str_result_view(r) == save_base(save_dir@),
{
    let t = trim_str(save_dir);
    if t.unicode_len() == 0 {
        Err(to_owned_string("محل ذخیره‌سازی را انتخاب کنید."))
    } else if !is_absolute_path(t.as_str()) {
        Err(to_owned_string("مسیر ذخیره‌سازی باید کامل باشد. دوباره پوشه را انتخاب کنید."))
    } else {
        Ok(t)
    }
}

/// The error shown when a chosen path is no folder.
pub fn not_a_folder(path: &str) -> (r: String)
    ensures
        r@ == "مسیر انتخاب‌شده پوشه نیست: "@ + path@,
{
    cat("مسیر انتخاب‌شده پوشه نیست: ", path)
}

/// The error shown when a chosen folder does not exist.
pub fn missing_folder(path: &str) -> (r: String)
    ensures
        r@ == "پوشه وجود ندارد: "@ + path@,
{
    cat("پوشه وجود ندارد: ", path)
}

/// The output folder of a clone: the sanitised name under the save folder.
pub fn output_dir_in(base: &str, out_name: &str) -> (r: String)
    ensures
        r@ == push(base@, sanitized_folder(out_name@)),
{
    let mut p = chars_of(base);
    let n = sanitize_folder_name(out_name);
    let nv = chars_of(n.as_str());
    push_path(&mut p, nv.as_slice());
    string_from_chars(p.as_slice())
}

/// The project folder typed by the user: trimmed, present and absolute.
pub open spec fn project_path(input: Seq<char>) -> Result<Seq<char>, Seq<char>> {
    let t = trim(input);
    if t.len() == 0 {
        Err("پوشه پروژه را انتخاب کنید."@)
    } else if !has_root(t) {
        Err("مسیر پروژه باید کامل باشد."@)
    } else {
        Ok(t)
    }
}

/// Checks the project folder typed by the user; the caller then checks that
/// it exists and is a folder (`missing_folder`, `not_a_folder`).
pub fn check_project_path(project_dir: &str) -> (r: Result<String, String>)
    ensures
        str_result_view(r) == project_path(project_dir@),
{
    let t = trim_str(project_dir);
    let v = chars_of(t.as_str());
    if v.len() == 0 {
        Err(to_owned_string("پوشه پروژه را انتخاب کنید."))
    } else if v[0] != '/' {
        Err(to_owned_string("مسیر پروژه باید کامل باشد."))
    } else {
        Ok(t)
    }
}

/// The project folder: the checks of `check_project_path`, then the
/// caller's findings on the trimmed path.
pub open spec fn project_dir_result(input: Seq<char>, exists: bool, is_dir: bool) -> Result<
    Seq<char>,
    Seq<char>,
> {
    match project_path(input) {
        Err(e) => Err(e),
        Ok(t) => if !exists {
            Err("پوشه وجود ندارد: "@ + t)
        } else if !is_dir {
            Err("مسیر انتخاب‌شده پوشه نیست: "@ + t)
        } else {
            Ok(t)
        },
    }
}

/// Validates a project folder from what the caller found at the trimmed
/// path: `exists` and `is_dir` are read only when the path passed the
/// other checks.
pub fn validate_project_dir(project_dir: &str, exists: bool, is_dir: bool) -> (r: Result<String, String>)
    ensures
        str_result_view(r) == project_dir_result(project_dir@, exists, is_dir),
{
    let t = check_project_path(project_dir)?;
    if !exists {
        Err(missing_folder(t.as_str()))
    } else if !is_dir {
        Err(not_a_folder(t.as_str()))
    } else {
        Ok(t)
    }
}

// ---------------------------------------------------------------------------
// Settings.
/// The folder of the application's data: under `APPDATA`, else under
/// `HOME`, else in the working folder.
pub open spec fn app_data(appdata: Option<Seq<char>>, home: Option<Seq<char>>) -> Seq<char> {
    match appdata {
        Some(a) => push(a, "webcloner"@),
        None => match home {
            Some(h) => push(h, ".webcloner"@),
            None => ".webcloner"@,
        },
    }
}

pub open spec fn opt_view(o: Option<&str>) -> Option<Seq<char>> {
    match o {
        Some(s) => Some(s@),
        None => None,
    }
}

/// The application's data folder, from the `APPDATA` and `HOME` variables.
pub fn app_data_dir(appdata: Option<&str>, home: Option<&str>) -> (r: String)
    ensures
        r@ == app_data(opt_view(appdata), opt_view(home)),
{
    match appdata {
        Some(a) => {
            let mut p = chars_of(a);
            push_path(&mut p, chars_of("webcloner").as_slice());
            string_from_chars(p.as_slice())
        },
        None => match home {
            Some(h) => {
                let mut p = chars_of(h);
                push_path(&mut p, chars_of(".webcloner").as_slice());
                string_from_chars(p.as_slice())
            },
            None => to_owned_string(".webcloner"),
        },
    }
}

/// The settings file, from the `APPDATA` and `HOME` variables.
pub fn settings_path(appdata: Option<&str>, home: Option<&str>) -> (r: String)
    ensures
        r@ == push(app_data(opt_view(appdata), opt_view(home)), "settings.json"@),
{
    let d = app_data_dir(appdata, home);
    let mut p = chars_of(d.as_str());
    push_path(&mut p, chars_of("settings.json").as_slice());
    string_from_chars(p.as_slice())
}

/// A folder recently cloned to or served.
pub struct RecentItem {
    pub path: String,
    pub kind: String,
    pub url: Option<String>,
    pub port: Option<u16>,
    pub at: String,
}

pub struct RecentView {
    pub path: Seq<char>,
    pub kind: Seq<char>,
    pub url: Option<Seq<char>>,
    pub port: Option<u16>,
    pub at: Seq<char>,
}

impl View for RecentItem {
    type V = RecentView;

    open spec fn view(&self) -> RecentView {
        RecentView {
            path: self.path@,
            kind: self.kind@,
            url: crate::urls::opt_str_view(self.url),
            port: self.port,
            at: self.at@,
        }
    }
}

impl RecentItem {
    pub fn copy(&self) -> (r: RecentItem)
        ensures
            r@ == self@,
    {
        RecentItem {
            path: to_owned_string(self.path.as_str()),
            kind: to_owned_string(self.kind.as_str()),
            url: match &self.url {
                Some(u) => Some(to_owned_string(u.as_str())),
                None => None,
            },
            port: self.port,
            at: to_owned_string(self.at.as_str()),
        }
    }
}

/// The saved settings of the desktop front end.
pub struct AppSettings {
    pub save_dir: Option<String>,
    pub out_name: Option<String>,
    pub max_pages: Option<usize>,
    pub max_depth: Option<usize>,
    pub concurrency: Option<usize>,
    pub include_external_assets: Option<bool>,
    pub follow_external_pages: Option<bool>,
    pub zip: Option<bool>,
    pub block_tracking: Option<bool>,
    pub report_broken_links: Option<bool>,
    pub port: Option<u16>,
    pub auto_port: Option<bool>,
    pub recent: Vec<RecentItem>,
}

/// How many recent items are kept.
pub const MAX_RECENT: usize = 12;

pub open spec fn recents_view(v: Seq<RecentItem>) -> Seq<RecentView> {
    v.map_values(|r: RecentItem| r@)
}

/// Two items stand for the same folder used the same way.
pub open spec fn same_entry(a: RecentView, b: RecentView) -> bool {
    a.path == b.path && a.kind == b.kind
}

/// The items of `v` that do not stand for the same entry as `item`, in order.
pub open spec fn other_entries(v: Seq<RecentView>, item: RecentView) -> Seq<RecentView>
    decreases v.len(),
{
    if v.len() == 0 {
        Seq::empty()
    } else if same_entry(v.last(), item) {
        other_entries(v.drop_last(), item)
    } else {
        other_entries(v.drop_last(), item).push(v.last())
    }
}

/// The recent list after `item` was used: `item` first, then the other
/// entries in their order, at most `MAX_RECENT` in all.
pub open spec fn recent_after(v: Seq<RecentView>, item: RecentView) -> Seq<RecentView> {
    let all = seq![item] + other_entries(v, item);
    if all.len() > MAX_RECENT {
        all.take(MAX_RECENT as int)
    } else {
        all
    }
}

/// Puts `item` at the front of the recent list, dropping an older entry for
/// the same folder and kind and keeping at most `MAX_RECENT` items.
pub fn push_recent(settings: &mut AppSettings, item: RecentItem)
    ensures
        recents_view(final(settings).recent@) == recent_after(recents_view(old(settings).recent@), item@),
        final(settings).save_dir == old(settings).save_dir,
        final(settings).out_name == old(settings).out_name,
        final(settings).max_pages == old(settings).max_pages,
        final(settings).max_depth == old(settings).max_depth,
        final(settings).concurrency == old(settings).concurrency,
        final(settings).include_external_assets == old(settings).include_external_assets,
        final(settings).follow_external_pages == old(settings).follow_external_pages,
        final(settings).zip == old(settings).zip,
        final(settings).block_tracking == old(settings).block_tracking,
        final(settings).report_broken_links == old(settings).report_broken_links,
        final(settings).port == old(settings).port,
        final(settings).auto_port == old(settings).auto_port,
{
    let ghost old_v = recents_view(settings.recent@);
    let ghost iv = item@;
    let mut kept: Vec<RecentItem> = Vec::new();
    let mut i: usize = 0;
    while i < settings.recent.len()
        invariant
            i <= settings.recent.len(),
            old_v == recents_view(settings.recent@),
            iv == item@,
            recents_view(kept@) == other_entries(old_v.take(i as int), iv),
        decreases settings.recent.len() - i,
    {
        assert(old_v.take(i + 1).drop_last() =~= old_v.take(i as int));
        assert(old_v.take(i + 1).last() == settings.recent@[i as int]@);
        let r = &settings.recent[i];
        let same = crate::keyed::same_str(r.path.as_str(), item.path.as_str())
            && crate::keyed::same_str(r.kind.as_str(), item.kind.as_str());
        if !same {
            let ghost prev = recents_view(kept@);
            kept.push(r.copy());
            assert(recents_view(kept@) =~= prev.push(settings.recent@[i as int]@));
        }
        i = i + 1;
    }
    assert(old_v.take(old_v.len() as int) =~= old_v);
    let mut out: Vec<RecentItem> = Vec::new();
    out.push(item);
    let mut j: usize = 0;
    while j < kept.len()
        invariant
            j <= kept.len(),
            recents_view(out@) == seq![iv] + recents_view(kept@).take(j as int),
        decreases kept.len() - j,
    {
        let ghost prev = recents_view(out@);
        out.push(kept[j].copy());
        assert(recents_view(out@) =~= prev.push(kept@[j as int]@));
        assert(recents_view(kept@).take(j + 1) =~= recents_view(kept@).take(j as int).push(
            kept@[j as int]@,
        ));
        j = j + 1;
    }
    assert(recents_view(kept@).take(kept.len() as int) =~= recents_view(kept@));
    if out.len() > MAX_RECENT {
        out.truncate(MAX_RECENT);
        assert(recents_view(out@) =~= recent_after(old_v, iv));
    }
    settings.recent = out;
}

/// Seconds since the Unix epoch, as a decimal string.
pub fn now_iso() -> (r: String)
    ensures
        exists|n: u64| r@ == decimal(n as nat),
{
    decimal_string(crate::job_state::JobState::now_secs())
}

// ---------------------------------------------------------------------------
// Messages and limits.
/// The limits of a discovery as the front end passes them on: the page cap
/// within 1..=5000 and the depth at most 100.
pub fn discovery_limits(max_pages_cap: usize, max_depth: usize) -> (r: (usize, usize))
    ensures
        r.0 == (if max_pages_cap < 1 {
            1
        } else if max_pages_cap > 5000 {
            5000
        } else {
            max_pages_cap
        }),
        r.1 == (if max_depth > 100 {
            100
        } else {
            max_depth
        }),
{
    let cap = if max_pages_cap < 1 {
        1
    } else if max_pages_cap > 5000 {
        5000
    } else {
        max_pages_cap
    };
    let depth = if max_depth > 100 {
        100
    } else {
        max_depth
    };
    (cap, depth)
}

/// The limits of a clone as the front end passes them on: at least one
/// page and at least one download at a time.
pub fn clone_limits(max_pages: usize, concurrency: usize) -> (r: (usize, usize))
    ensures
        r.0 == (if max_pages < 1 {
            1
        } else {
            max_pages
        }),
        r.1 == (if concurrency < 1 {
            1
        } else {
            concurrency
        }),
{
    (if max_pages < 1 {
        1
    } else {
        max_pages
    }, if concurrency < 1 {
        1
    } else {
        concurrency
    })
}

/// The message on a resumable clone.
pub open spec fn resume_text(done_pages: nat, planned_pages: nat, done_assets: nat) -> Seq<char> {
    "دانلود ناتمام پیدا شد: "@ + decimal(done_pages) + "/"@ + decimal(planned_pages) + " صفحه و "@
        + decimal(done_assets) + " فایل ذخیره‌شده."@
}

pub fn resume_message(done_pages: usize, planned_pages: usize, done_assets: usize) -> (r: String)
    ensures
        r@ == resume_text(done_pages as nat, planned_pages as nat, done_assets as nat),
{
    let a = cat("دانلود ناتمام پیدا شد: ", decimal_string(done_pages as u64).as_str());
    let b = cat(a.as_str(), "/");
    let c = cat(b.as_str(), decimal_string(planned_pages as u64).as_str());
    let d = cat(c.as_str(), " صفحه و ");
    let e = cat(d.as_str(), decimal_string(done_assets as u64).as_str());
    cat(e.as_str(), " فایل ذخیره‌شده.")
}

/// The name of a backend in messages.
pub open spec fn backend_label(b: ServerBackend) -> Seq<char> {
    match b {
        ServerBackend::Static => "استاتیک"@,
        ServerBackend::Php => "PHP"@,
        ServerBackend::AspNet => "ASP.NET"@,
    }
}

/// The message on a started server.
pub fn server_started_message(backend: ServerBackend, port: u16, url: &str) -> (r: String)
    ensures
        r@ == "سرور "@ + backend_label(backend) + " روی پورت "@ + decimal(port as nat) + " فعال شد:\n"@
            + url@,
{
    let label = match backend {
        ServerBackend::Static => "استاتیک",
        ServerBackend::Php => "PHP",
        ServerBackend::AspNet => "ASP.NET",
    };
    let a = cat("سرور ", label);
    let b = cat(a.as_str(), " روی پورت ");
    let c = cat(b.as_str(), decimal_string(port as u64).as_str());
    let d = cat(c.as_str(), " فعال شد:\n");
    cat(d.as_str(), url)
}

/// How a clone ended, as told to the user.
pub struct CloneOutcome {
    pub message: String,
    pub cancelled: bool,
}

/// The outcome of a clone into `out_dir`: a failure counts as a
/// cancellation when cancelling was asked for or its message says so;
/// other failures are passed on.
pub fn clone_outcome(error: Option<&str>, cancel_requested: bool, out_dir: &str) -> (r: Result<CloneOutcome, String>)
    ensures
        match error {
            None => (r matches Ok(o) && !o.cancelled && o.message@ == "دانلود با موفقیت انجام شد.\nپوشه: "@
                + out_dir@),
            Some(msg) => if cancel_requested || has_infix(msg@, "لغو"@) {
                (r matches Ok(o) && o.cancelled && o.message@ == "دانلود لغو شد. پوشه ناقص باقی ماند:\n"@
                    + out_dir@)
            } else {
                (r matches Err(e) && e@ == msg@)
            },
        },
{
    match error {
        None => Ok(CloneOutcome { message: cat("دانلود با موفقیت انجام شد.\nپوشه: ", out_dir), cancelled: false }),
        Some(msg) => {
            if cancel_requested || str_has_infix(msg, "لغو") {
                Ok(CloneOutcome { message: cat("دانلود لغو شد. پوشه ناقص باقی ماند:\n", out_dir), cancelled: true })
            } else {
                Err(to_owned_string(msg))
            }
        },
    }
}

/// The line added to the message when the clone was also zipped.
pub fn zip_line(zip_path: &str) -> (r: String)
    ensures
        r@ == "\nفایل ZIP: "@ + zip_path@,
{
    cat("\nفایل ZIP: ", zip_path)
}

// ---------------------------------------------------------------------------
// Laws of folder names and of the recent list.
/// A sanitised folder name is never empty, holds none of the characters
/// that cannot stand in a folder name, and neither starts nor ends with a
/// dot.
pub proof fn law_sanitized_folder_name(name: Seq<char>)
    ensures
        sanitized_folder(name).len() > 0,
        forall|i: int| 0 <= i < sanitized_folder(name).len() ==> !unsafe_folder_char(#[trigger] sanitized_folder(name)[i]),
        sanitized_folder(name)[0] != '.',
        sanitized_folder(name).last() != '.',
{
    let cleaned = name.map_values(|c: char| folder_char(c));
    let s = trim(cleaned);
    let a0 = crate::text::ws_end(cleaned, 0);
    crate::text::lemma_ws_end(cleaned, 0);
    crate::text::lemma_ws_start_back(cleaned, a0, cleaned.len() as int);
    let a = dot_end(s, 0);
    lemma_dot_end(s, 0);
    lemma_dot_start_back(s, a, s.len() as int);
    let b = dot_start_back(s, a, s.len() as int);
    let t = trim_dots(s);
    if t.len() == 0 {
        reveal_strlit("cloned-site");
    } else {
        assert(t[0] == s[a]);
        assert(t.last() == s[b - 1]);
        assert forall|i: int| 0 <= i < t.len() implies !unsafe_folder_char(#[trigger] t[i]) by {
            assert(t[i] == s[a + i]);
            assert(s[a + i] == cleaned[a0 + a + i]);
        }
    }
}

proof fn lemma_other_entries(v: Seq<RecentView>, item: RecentView)
    ensures
        other_entries(v, item).len() <= v.len(),
        forall|j: int| 0 <= j < other_entries(v, item).len() ==> !same_entry(#[trigger] other_entries(v, item)[j], item),
        forall|j: int| 0 <= j < other_entries(v, item).len() ==> v.contains(#[trigger] other_entries(v, item)[j]),
    decreases v.len(),
{
    if v.len() > 0 {
        let init = v.drop_last();
        lemma_other_entries(init, item);
        let o = other_entries(init, item);
        assert forall|j: int| 0 <= j < o.len() implies v.contains(#[trigger] o[j]) by {
            let k = choose|k: int| 0 <= k < init.len() && init[k] == o[j];
            assert(v[k] == o[j]);
        }
        if !same_entry(v.last(), item) {
            assert(v[v.len() - 1] == v.last());
            assert forall|j: int| 0 <= j < o.push(v.last()).len() implies v.contains(#[trigger] o.push(v.last())[j]) by {
                if j < o.len() {
                    assert(o.push(v.last())[j] == o[j]);
                }
            }
        }
    }
}

/// No two items stand for the same folder used the same way.
pub open spec fn distinct_entries(v: Seq<RecentView>) -> bool {
    forall|a: int, b: int| 0 <= a < b < v.len() ==> !same_entry(#[trigger] v[a], #[trigger] v[b])
}

proof fn lemma_other_entries_distinct(v: Seq<RecentView>, item: RecentView)
    requires
        distinct_entries(v),
    ensures
        distinct_entries(other_entries(v, item)),
    decreases v.len(),
{
    if v.len() > 0 {
        let init = v.drop_last();
        assert(distinct_entries(init)) by {
            assert forall|a: int, b: int| 0 <= a < b < init.len() implies !same_entry(#[trigger] init[a], #[trigger] init[b]) by {
                assert(init[a] == v[a] && init[b] == v[b]);
            }
        }
        lemma_other_entries_distinct(init, item);
        lemma_other_entries(init, item);
        let o = other_entries(init, item);
        if !same_entry(v.last(), item) {
            let o2 = o.push(v.last());
            assert forall|a: int, b: int| 0 <= a < b < o2.len() implies !same_entry(#[trigger] o2[a], #[trigger] o2[b]) by {
                if b == o.len() {
                    assert(o2[a] == o[a]);
                    assert(init.contains(o[a]));
                    let k = choose|k: int| 0 <= k < init.len() && init[k] == o[a];
                    assert(v[k] == o[a]);
                    assert(v[v.len() - 1] == o2[b]);
                } else {
                    assert(o2[a] == o[a] && o2[b] == o[b]);
                }
            }
        }
    }
}

/// The recent list after an item is used starts with that item, holds at
/// most `MAX_RECENT` items and no other item for the same folder and kind,
/// and keeps every folder-and-kind at most once when the list did.
pub proof fn law_recent_list(v: Seq<RecentView>, item: RecentView)
    ensures
        1 <= recent_after(v, item).len() <= MAX_RECENT,
        recent_after(v, item)[0] == item,
        forall|j: int| 1 <= j < recent_after(v, item).len() ==> !same_entry(#[trigger] recent_after(v, item)[j], item),
        distinct_entries(v) ==> distinct_entries(recent_after(v, item)),
{
    lemma_other_entries(v, item);
    let o = other_entries(v, item);
    let all = seq![item] + o;
    let r = recent_after(v, item);
    assert forall|j: int| 1 <= j < r.len() implies !same_entry(#[trigger] r[j], item) by {
        assert(r[j] == all[j]);
        assert(all[j] == o[j - 1]);
    }
    if distinct_entries(v) {
        lemma_other_entries_distinct(v, item);
        assert forall|a: int, b: int| 0 <= a < b < r.len() implies !same_entry(#[trigger] r[a], #[trigger] r[b]) by {
            assert(r[a] == all[a] && r[b] == all[b]);
            assert(all[b] == o[b - 1]);
            if a > 0 {
                assert(all[a] == o[a - 1]);
            }
        }
    }
}

// ---------------------------------------------------------------------------
// One discovery or clone at a time.
/// Whether a discovery or clone runs and whether cancelling was asked for.
pub struct DownloadGate {
    active: bool,
    cancel: bool,
}

impl View for DownloadGate {
    type V = (bool, bool);

    closed spec fn view(&self) -> (bool, bool) {
        (self.active, self.cancel)
    }
}

impl DownloadGate {
    pub fn new() -> (g: DownloadGate)
        ensures
            g@ == (false, false),
    {
        DownloadGate { active: false, cancel: false }
    }

    /// Starts a discovery: refused, with nothing changed, while another
    /// discovery or clone runs.
    pub fn begin_discovery(&mut self) -> (r: Result<(), String>)
        ensures
            old(self)@.0 ==> (r matches Err(e) && e@ == "یک عملیات دانلود/کشف دیگر در حال اجراست."@ && final(self)@ == old(self)@),
            !old(self)@.0 ==> (r is Ok && final(self)@ == (true, false)),
    {
        if self.active {
            return Err(to_owned_string("یک عملیات دانلود/کشف دیگر در حال اجراست."));
        }
        self.active = true;
        self.cancel = false;
        Ok(())
    }

    /// Starts a clone: refused, with nothing changed, while another
    /// discovery or clone runs.
    pub fn begin_download(&mut self) -> (r: Result<(), String>)
        ensures
            old(self)@.0 ==> (r matches Err(e) && e@ == "یک دانلود دیگر در حال اجراست."@ && final(self)@ == old(self)@),
            !old(self)@.0 ==> (r is Ok && final(self)@ == (true, false)),
    {
        if self.active {
            return Err(to_owned_string("یک دانلود دیگر در حال اجراست."));
        }
        self.active = true;
        self.cancel = false;
        Ok(())
    }

    /// Asks the running discovery or clone to stop; refused when none runs.
    pub fn request_cancel(&mut self) -> (r: Result<(), String>)
        ensures
            !old(self)@.0 ==> (r matches Err(e) && e@ == "دانلود فعالی وجود ندارد."@ && final(self)@ == old(self)@),
            old(self)@.0 ==> (r is Ok && final(self)@ == (true, true)),
    {
        if !self.active {
            return Err(to_owned_string("دانلود فعالی وجود ندارد."));
        }
        self.cancel = true;
        Ok(())
    }

    /// The discovery or clone is over, however it ended.
    pub fn end(&mut self)
        ensures
            final(self)@ == (false, false),
    {
        self.active = false;
        self.cancel = false;
    }

    pub fn is_active(&self) -> (r: bool)
        ensures
            r == self@.0,
    {
        self.active
    }

    pub fn cancel_requested(&self) -> (r: bool)
        ensures
            r == self@.1,
    {
        self.cancel
    }
}

/// A discovery as the front end asks for it.
pub struct DiscoverRequest {
    pub url: String,
    pub max_pages_cap: usize,
    pub max_depth: usize,
    pub follow_external_pages: bool,
    pub block_tracking: bool,
}

/// A clone as the front end asks for it.
pub struct DownloadRequest {
    pub url: String,
    pub save_dir: String,
    pub out_name: String,
    pub max_pages: usize,
    pub max_depth: usize,
    pub concurrency: usize,
    pub include_external_assets: bool,
    pub follow_external_pages: bool,
    pub zip: bool,
    pub block_tracking: bool,
    pub report_broken_links: bool,
    /// Confirmed page URLs from discovery (optional).
    pub planned_pages: Option<Vec<String>>,
    /// Resume an interrupted clone in the output folder.
    pub resume: bool,
}

pub open spec fn gui_user_agent() -> Seq<char> {
    "webcloner-gui/1.0 (+offline mirror tool)"@
}

fn copy_list(v: &Option<Vec<String>>) -> (r: Option<Vec<String>>)
    ensures
        crate::crawl::opt_strings_view(r) == crate::crawl::opt_strings_view(*v),
{
    match v {
        Some(list) => {
            let mut out: Vec<String> = Vec::new();
            let mut i: usize = 0;
            while i < list.len()
                invariant
                    i <= list.len(),
                    crate::keyed::strings_view(out@) == crate::keyed::strings_view(list@).take(i as int),
                decreases list.len() - i,
            {
                let ghost before = crate::keyed::strings_view(out@);
                let s = to_owned_string(list[i].as_str());
                out.push(s);
                assert(crate::keyed::strings_view(out@) =~= before.push(s@));
                assert(crate::keyed::strings_view(list@).take(i + 1) =~= crate::keyed::strings_view(list@).take(i as int).push(list@[i as int]@));
                i = i + 1;
            }
            assert(crate::keyed::strings_view(list@).take(list@.len() as int) =~= crate::keyed::strings_view(list@));
            Some(out)
        },
        None => None,
    }
}

/// The discovery settings for a request from the front end: the page cap
/// within 1..=5000, the depth at most 100, a 25-second timeout.
pub fn discover_options_for(req: &DiscoverRequest, start_url: &str) -> (o: crate::downloader::DiscoverOptions)
    ensures
        o.start_url@ == start_url@,
        o.max_pages_cap == (if req.max_pages_cap < 1 { 1 } else if req.max_pages_cap > 5000 { 5000 } else { req.max_pages_cap }),
        o.max_depth == (if req.max_depth > 100 { 100 } else { req.max_depth }),
        o.follow_external_pages == req.follow_external_pages,
        o.block_tracking == req.block_tracking,
        o.timeout_secs == 25,
        o.user_agent@ == gui_user_agent(),
{
    let (cap, depth) = discovery_limits(req.max_pages_cap, req.max_depth);
    crate::downloader::DiscoverOptions {
        start_url: to_owned_string(start_url),
        max_pages_cap: cap,
        max_depth: depth,
        follow_external_pages: req.follow_external_pages,
        block_tracking: req.block_tracking,
        timeout_secs: 25,
        user_agent: to_owned_string("webcloner-gui/1.0 (+offline mirror tool)"),
    }
}

/// The clone settings for a request from the front end: at least one page
/// and one download at a time, a 30-second timeout.
pub fn crawl_options_for(req: &DownloadRequest, start_url: &str, out_dir: &str) -> (o: crate::crawl::CrawlOptions)
    ensures
        o.start_url@ == start_url@,
        o.out_dir@ == out_dir@,
        o.max_pages == (if req.max_pages < 1 { 1 } else { req.max_pages }),
        o.max_depth == req.max_depth,
        o.include_external_assets == req.include_external_assets,
        o.follow_external_pages == req.follow_external_pages,
        o.concurrency == (if req.concurrency < 1 { 1 } else { req.concurrency }),
        o.timeout_secs == 30,
        o.user_agent@ == gui_user_agent(),
        o.block_tracking == req.block_tracking,
        o.report_broken_links == req.report_broken_links,
        crate::crawl::opt_strings_view(o.planned_pages) == crate::crawl::opt_strings_view(req.planned_pages),
        o.resume == req.resume,
{
    let (pages, conc) = clone_limits(req.max_pages, req.concurrency);
    crate::crawl::CrawlOptions {
        start_url: to_owned_string(start_url),
        out_dir: to_owned_string(out_dir),
        max_pages: pages,
        max_depth: req.max_depth,
        include_external_assets: req.include_external_assets,
        follow_external_pages: req.follow_external_pages,
        concurrency: conc,
        timeout_secs: 30,
        user_agent: to_owned_string("webcloner-gui/1.0 (+offline mirror tool)"),
        block_tracking: req.block_tracking,
        report_broken_links: req.report_broken_links,
        planned_pages: copy_list(&req.planned_pages),
        resume: req.resume,
    }
}

/// After a clone, the settings remember the request as made.
pub fn remember_download(settings: &mut AppSettings, req: &DownloadRequest)
    ensures
        final(settings).save_dir matches Some(s) && s@ == req.save_dir@,
        final(settings).out_name matches Some(s) && s@ == req.out_name@,
        final(settings).max_pages == Some(req.max_pages),
        final(settings).max_depth == Some(req.max_depth),
        final(settings).concurrency == Some(req.concurrency),
        final(settings).include_external_assets == Some(req.include_external_assets),
        final(settings).follow_external_pages == Some(req.follow_external_pages),
        final(settings).zip == Some(req.zip),
        final(settings).block_tracking == Some(req.block_tracking),
        final(settings).report_broken_links == Some(req.report_broken_links),
        final(settings).port == old(settings).port,
        final(settings).auto_port == old(settings).auto_port,
        recents_view(final(settings).recent@) == recents_view(old(settings).recent@),
{
    settings.save_dir = Some(to_owned_string(req.save_dir.as_str()));
    settings.out_name = Some(to_owned_string(req.out_name.as_str()));
    settings.max_pages = Some(req.max_pages);
    settings.max_depth = Some(req.max_depth);
    settings.concurrency = Some(req.concurrency);
    settings.include_external_assets = Some(req.include_external_assets);
    settings.follow_external_pages = Some(req.follow_external_pages);
    settings.zip = Some(req.zip);
    settings.block_tracking = Some(req.block_tracking);
    settings.report_broken_links = Some(req.report_broken_links);
}

// ---------------------------------------------------------------------------
// Resuming, packaging and default folders.
/// What the front end is told about a possible resume.
pub struct ResumeInfo {
    pub available: bool,
    pub out_dir: Option<String>,
    pub start_url: Option<String>,
    pub planned_pages: usize,
    pub done_pages: usize,
    pub done_assets: usize,
    pub message: String,
}

/// The resume information for an output folder, from its checkpoint if
/// one was found.
pub fn resume_info(out_dir: &str, state: Option<&crate::job_state::JobState>) -> (r: ResumeInfo)
    ensures
        state is None ==> !r.available && r.out_dir is None && r.start_url is None && r.planned_pages == 0
            && r.done_pages == 0 && r.done_assets == 0 && r.message@ == "وضعیت ادامه‌ای وجود ندارد."@,
        state matches Some(st) ==> r.available && crate::urls::opt_str_view(r.out_dir) == Some(out_dir@)
            && crate::urls::opt_str_view(r.start_url) == Some(st.start_url@)
            && r.planned_pages == st.planned_pages.len() && r.done_pages == st.done_pages.len()
            && r.done_assets == st.done_assets.len() && r.message@ == resume_text(
            st.done_pages.len() as nat,
            st.planned_pages.len() as nat,
            st.done_assets.len() as nat,
        ),
{
    match state {
        Some(st) => ResumeInfo {
            available: true,
            out_dir: Some(to_owned_string(out_dir)),
            start_url: Some(to_owned_string(st.start_url.as_str())),
            planned_pages: st.planned_pages.len(),
            done_pages: st.done_pages.len(),
            done_assets: st.done_assets.len(),
            message: resume_message(st.done_pages.len(), st.planned_pages.len(), st.done_assets.len()),
        },
        None => ResumeInfo {
            available: false,
            out_dir: None,
            start_url: None,
            planned_pages: 0,
            done_pages: 0,
            done_assets: 0,
            message: to_owned_string("وضعیت ادامه‌ای وجود ندارد."),
        },
    }
}

/// The folder a desktop package is prepared in: under the data folder,
/// named after the time stamp.
pub fn package_dir(app_data: &str, stamp: &str) -> (r: String)
    ensures
        r@ == push(push(app_data@, "desktop-packages"@), "site-"@ + stamp@),
{
    let mut p = chars_of(app_data);
    push_path(&mut p, chars_of("desktop-packages").as_slice());
    let name = cat("site-", stamp);
    push_path(&mut p, chars_of(name.as_str()).as_slice());
    string_from_chars(p.as_slice())
}

/// The instructions written next to a prepared desktop package.
pub fn package_readme(out: &str, src: &str) -> (r: String)
    ensures
        r@ == "بسته دسکتاپ آماده شد.\n\n1) برای ساخت نصب‌کننده:\n   cd \""@ + out@ + "\"\n   .\\package.ps1 \""@
            + src@ + "\"\n\nیا فقط از همین پوشه با cargo tauri build در src-tauri بسازید.\nمحتوای سایت در dist/ کپی شده است.\n"@,
{
    let a = cat("بسته دسکتاپ آماده شد.\n\n1) برای ساخت نصب‌کننده:\n   cd \"", out);
    let b = cat(a.as_str(), "\"\n   .\\package.ps1 \"");
    let c = cat(b.as_str(), src);
    cat(c.as_str(), "\"\n\nیا فقط از همین پوشه با cargo tauri build در src-tauri بسازید.\nمحتوای سایت در dist/ کپی شده است.\n")
}

/// The message on a prepared desktop package.
pub fn package_message(out: &str) -> (r: String)
    ensures
        r@ == "پوشه آماده دسکتاپ ساخته شد:\n"@ + out@ + "\nسایت در dist/ کپی شد. راهنما: README-NEXT.txt"@,
{
    let a = cat("پوشه آماده دسکتاپ ساخته شد:\n", out);
    cat(a.as_str(), "\nسایت در dist/ کپی شد. راهنما: README-NEXT.txt")
}

/// The documents folder of a user profile.
pub fn documents_dir(profile: &str) -> (r: String)
    ensures
        r@ == push(profile@, "Documents"@),
{
    let mut p = chars_of(profile);
    push_path(&mut p, chars_of("Documents").as_slice());
    string_from_chars(p.as_slice())
}

/// The folder proposed for saving clones: the documents folder of the user
/// profile when it is a folder, else the profile, else the home folder,
/// else the working folder. `docs_is_dir` tells whether
/// `documents_dir(profile)` is a folder.
pub fn default_save_dir(profile: Option<&str>, docs_is_dir: bool, home: Option<&str>, cwd: &str) -> (r: String)
    ensures
        r@ == match opt_view(profile) {
            Some(p) => if docs_is_dir {
                push(p, "Documents"@)
            } else {
                p
            },
            None => match opt_view(home) {
                Some(h) => h,
                None => cwd@,
            },
        },
{
    match profile {
        Some(p) => if docs_is_dir {
            documents_dir(p)
        } else {
            to_owned_string(p)
        },
        None => match home {
            Some(h) => to_owned_string(h),
            None => to_owned_string(cwd),
        },
    }
}

} // verus!
