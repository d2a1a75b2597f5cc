//! Locating the PHP and .NET runtimes bundled with the application.
//!
//! The locator lists candidate executables under its search roots; the
//! caller probes the file system and the `PATH` and hands the findings back
//! as a [`RuntimeProbe`].
use vstd::prelude::*;
use crate::keyed::{same_str, strings_view};
use crate::paths::{components, comps_view, path_components, push, push_path, Comp, PathComp};
use crate::text::{chars_of, string_from_chars, to_owned_string};

verus! {

/// Search roots for bundled runtimes (inside the application bundle).
#[derive(Clone)]
pub struct RuntimesLocator {
    search_roots: Vec<String>,
}

/// What the caller found: whether the machine runs Windows (which decides
/// the candidate executables), which candidates exist as files, and whether
/// `php` and `dotnet` are commands on the `PATH`.
pub struct RuntimeProbe {
    pub windows: bool,
    pub existing_files: Vec<String>,
    pub php_on_path: bool,
    pub dotnet_on_path: bool,
}

pub struct ProbeView {
    pub windows: bool,
    pub files: Seq<Seq<char>>,
    pub php_on_path: bool,
    pub dotnet_on_path: bool,
}

impl View for RuntimeProbe {
    type V = ProbeView;

    open spec fn view(&self) -> ProbeView {
        ProbeView {
            windows: self.windows,
            files: strings_view(self.existing_files@),
            php_on_path: self.php_on_path,
            dotnet_on_path: self.dotnet_on_path,
        }
    }
}

impl View for RuntimesLocator {
    type V = Seq<Seq<char>>;

    closed spec fn view(&self) -> Seq<Seq<char>> {
        strings_view(self.search_roots@)
    }
}

/// Two paths are equal as paths (`PathBuf` equality compares components).
pub open spec fn same_path(a: Seq<char>, b: Seq<char>) -> bool {
    components(a) == components(b)
}

/// `p` equals, as a path, one of `roots`.
pub open spec fn has_path(roots: Seq<Seq<char>>, p: Seq<char>) -> bool {
    exists|i: int| 0 <= i < roots.len() && #[trigger] same_path(roots[i], p)
}

/// The PHP executables a root may hold, in the order they are tried: on
/// Windows `php/php.exe` then `php-win/php.exe`, elsewhere `php/php` then
/// `php/bin/php`.
pub open spec fn php_candidates(root: Seq<char>, windows: bool) -> Seq<Seq<char>> {
    if windows {
        seq![push(push(root, "php"@), "php.exe"@), push(push(root, "php-win"@), "php.exe"@)]
    } else {
        seq![
            push(push(root, "php"@), "php"@),
            push(push(push(root, "php"@), "bin"@), "php"@),
        ]
    }
}

/// The .NET executables a root may hold, in the order they are tried: on
/// Windows `dotnet/dotnet.exe` then `dotnet-win/dotnet.exe`, elsewhere
/// `dotnet/dotnet`.
pub open spec fn dotnet_candidates(root: Seq<char>, windows: bool) -> Seq<Seq<char>> {
    if windows {
        seq![
            push(push(root, "dotnet"@), "dotnet.exe"@),
            push(push(root, "dotnet-win"@), "dotnet.exe"@),
        ]
    } else {
        seq![push(push(root, "dotnet"@), "dotnet"@)]
    }
}

/// The candidates of every root, root by root.
pub open spec fn all_candidates(roots: Seq<Seq<char>>, php: bool, windows: bool) -> Seq<Seq<char>>
    decreases roots.len(),
{
    if roots.len() == 0 {
        Seq::empty()
    } else {
        all_candidates(roots.drop_last(), php, windows) + if php {
            php_candidates(roots.last(), windows)
        } else {
            dotnet_candidates(roots.last(), windows)
        }
    }
}

/// The first candidate that exists as a file.
pub open spec fn first_existing(cands: Seq<Seq<char>>, files: Seq<Seq<char>>) -> Option<Seq<char>>
    decreases cands.len(),
{
    if cands.len() == 0 {
        None
    } else if files.contains(cands[0]) {
        Some(cands[0])
    } else {
        first_existing(cands.drop_first(), files)
    }
}

/// The runtime used: the first bundled executable found, else the bare
/// command when it is on the `PATH`.
pub open spec fn resolved(
    roots: Seq<Seq<char>>,
    probe: ProbeView,
    php: bool,
) -> Option<Seq<char>> {
    match first_existing(all_candidates(roots, php, probe.windows), probe.files) {
        Some(p) => Some(p),
        None => if php && probe.php_on_path {
            Some("php"@)
        } else if !php && probe.dotnet_on_path {
            Some("dotnet"@)
        } else {
            None
        },
    }
}

/// A path with at most one component: a command looked up on the `PATH`.
pub open spec fn bare_command(p: Seq<char>) -> bool {
    components(p).len() <= 1
}

pub open spec fn uses_bundled(roots: Seq<Seq<char>>, probe: ProbeView, php: bool) -> bool {
    match resolved(roots, probe, php) {
        Some(p) => !bare_command(p),
        None => false,
    }
}

/// Where PHP comes from, as shown to the user.
pub open spec fn php_note(roots: Seq<Seq<char>>, probe: ProbeView) -> Seq<char> {
    if uses_bundled(roots, probe, true) {
        "PHP داخلی برنامه (بدون نیاز به PATH)"@
    } else if resolved(roots, probe, true) is Some {
        "PHP از PATH سیستم"@
    } else {
        "PHP داخلی پیدا نشد — یک‌بار scripts/setup-runtimes.ps1 را اجرا کنید"@
    }
}

/// Where .NET comes from, as shown to the user.
pub open spec fn dotnet_note(roots: Seq<Seq<char>>, probe: ProbeView) -> Seq<char> {
    if uses_bundled(roots, probe, false) {
        "ASP.NET با .NET داخلی برنامه"@
    } else if resolved(roots, probe, false) is Some {
        ".NET از PATH سیستم"@
    } else {
        ".NET داخلی پیدا نشد — scripts/setup-runtimes.ps1 را اجرا کنید"@
    }
}

fn comps_eq(a: &str, b: &str) -> (r: bool)
    ensures
        r == same_path(a@, b@),
{
    let av = chars_of(a);
    let bv = chars_of(b);
    let ac = path_components(av.as_slice());
    let bc = path_components(bv.as_slice());
    if ac.len() != bc.len() {
        assert(comps_view(ac@).len() != comps_view(bc@).len());
        return false;
    }
    let mut i: usize = 0;
    while i < ac.len()
        invariant
            i <= ac.len(),
            ac.len() == bc.len(),
            comps_view(ac@) == components(a@),
            comps_view(bc@) == components(b@),
            forall|j: int| 0 <= j < i ==> comps_view(ac@)[j] == comps_view(bc@)[j],
        decreases ac.len() - i,
    {
        if !crate::utils::comp_eq(&ac[i], &bc[i]) {
            assert(comps_view(ac@)[i as int] != comps_view(bc@)[i as int]);
            assert(components(a@)[i as int] != components(b@)[i as int]);
            return false;
        }
        i = i + 1;
    }
    assert(comps_view(ac@) =~= comps_view(bc@));
    true
}

fn join2(root: &str, a: &str, b: &str) -> (r: String)
    ensures
        r@ == push(push(root@, a@), b@),
{
    let mut p = chars_of(root);
    push_path(&mut p, chars_of(a).as_slice());
    push_path(&mut p, chars_of(b).as_slice());
    string_from_chars(p.as_slice())
}

fn join3(root: &str, a: &str, b: &str, c: &str) -> (r: String)
    ensures
        r@ == push(push(push(root@, a@), b@), c@),
{
    let mut p = chars_of(root);
    push_path(&mut p, chars_of(a).as_slice());
    push_path(&mut p, chars_of(b).as_slice());
    push_path(&mut p, chars_of(c).as_slice());
    string_from_chars(p.as_slice())
}

fn list_contains(v: &Vec<String>, s: &str) -> (r: bool)
    ensures
        r == strings_view(v@).contains(s@),
{
    let mut i: usize = 0;
    while i < v.len()
        invariant
            i <= v.len(),
            forall|j: int| 0 <= j < i ==> v@[j]@ != s@,
        decreases v.len() - i,
    {
        if same_str(v[i].as_str(), s) {
            assert(strings_view(v@)[i as int] == s@);
            return true;
        }
        i = i + 1;
    }
    proof {
        if strings_view(v@).contains(s@) {
            let j = choose|j: int| 0 <= j < strings_view(v@).len() && strings_view(v@)[j] == s@;
            assert(v@[j]@ == s@);
        }
    }
    false
}

impl RuntimesLocator {
    pub fn new() -> (r: RuntimesLocator)
        ensures
            r@ == Seq::<Seq<char>>::empty(),
    {
        let r = RuntimesLocator { search_roots: Vec::new() };
        assert(r@ =~= Seq::<Seq<char>>::empty());
        r
    }

    /// Adds a search root unless an equal path is already one.
    pub fn add_search_root(&mut self, path: &str)
        ensures
            has_path(old(self)@, path@) ==> final(self)@ == old(self)@,
            !has_path(old(self)@, path@) ==> final(self)@ == old(self)@.push(path@),
    {
        let mut i: usize = 0;
        while i < self.search_roots.len()
            invariant
                i <= self.search_roots.len(),
                self@ == old(self)@,
                forall|j: int| 0 <= j < i ==> !same_path(self@[j], path@),
            decreases self.search_roots.len() - i,
        {
            if comps_eq(self.search_roots[i].as_str(), path) {
                assert(same_path(self@[i as int], path@));
                return;
            }
            i = i + 1;
        }
        let ghost before = self@;
        self.search_roots.push(to_owned_string(path));
        assert(self@ =~= before.push(path@));
    }

    /// The candidate executables, root by root (PHP or .NET), for Windows
    /// or for other systems.
    pub fn candidates(&self, php: bool, windows: bool) -> (r: Vec<String>)
        ensures
            strings_view(r@) == all_candidates(self@, php, windows),
    {
        let mut out: Vec<String> = Vec::new();
        let mut i: usize = 0;
        while i < self.search_roots.len()
            invariant
                i <= self.search_roots.len(),
                strings_view(out@) == all_candidates(self@.take(i as int), php, windows),
            decreases self.search_roots.len() - i,
        {
            let root = self.search_roots[i].as_str();
            let ghost before = strings_view(out@);
            assert(self@.take(i + 1).drop_last() =~= self@.take(i as int));
            assert(self@.take(i + 1).last() == root@);
            if php && windows {
                let a = join2(root, "php", "php.exe");
                let b = join2(root, "php-win", "php.exe");
                out.push(a);
                out.push(b);
                assert(strings_view(out@) =~= before + php_candidates(root@, windows));
            } else if php {
                let a = join2(root, "php", "php");
                let b = join3(root, "php", "bin", "php");
                out.push(a);
                out.push(b);
                assert(strings_view(out@) =~= before + php_candidates(root@, windows));
            } else if windows {
                let a = join2(root, "dotnet", "dotnet.exe");
                let b = join2(root, "dotnet-win", "dotnet.exe");
                out.push(a);
                out.push(b);
                assert(strings_view(out@) =~= before + dotnet_candidates(root@, windows));
            } else {
                let a = join2(root, "dotnet", "dotnet");
                out.push(a);
                assert(strings_view(out@) =~= before + dotnet_candidates(root@, windows));
            }
            i = i + 1;
        }
        assert(self@.take(self@.len() as int) =~= self@);
        out
    }

    fn resolve(&self, probe: &RuntimeProbe, php: bool) -> (r: Option<String>)
        ensures
            crate::urls::opt_str_view(r) == resolved(self@, probe@, php),
    {
        let cands = self.candidates(php, probe.windows);
        let ghost cv = strings_view(cands@);
        assert(cv.skip(0) =~= cv);
        let mut i: usize = 0;
        while i < cands.len()
            invariant
                i <= cands.len(),
                cv == strings_view(cands@),
                cv == all_candidates(self@, php, probe@.windows),
                first_existing(cv.skip(i as int), probe@.files) == first_existing(cv, probe@.files),
            decreases cands.len() - i,
        {
            assert(cv.skip(i as int)[0] == cands@[i as int]@);
            assert(cv.skip(i as int).drop_first() =~= cv.skip(i + 1));
            if list_contains(&probe.existing_files, cands[i].as_str()) {
                assert(first_existing(cv.skip(i as int), probe@.files) == Some(cands@[i as int]@));
                return Some(to_owned_string(cands[i].as_str()));
            }
            i = i + 1;
        }
        assert(cv.skip(i as int) =~= Seq::<Seq<char>>::empty());
        assert(cv.skip(0) =~= cv);
        if php && probe.php_on_path {
            Some(to_owned_string("php"))
        } else if !php && probe.dotnet_on_path {
            Some(to_owned_string("dotnet"))
        } else {
            None
        }
    }

    /// The PHP executable to use, if any.
    pub fn resolve_php(&self, probe: &RuntimeProbe) -> (r: Option<String>)
        ensures
            crate::urls::opt_str_view(r) == resolved(self@, probe@, true),
    {
        self.resolve(probe, true)
    }

    /// The .NET executable to use, if any.
    pub fn resolve_dotnet(&self, probe: &RuntimeProbe) -> (r: Option<String>)
        ensures
            crate::urls::opt_str_view(r) == resolved(self@, probe@, false),
    {
        self.resolve(probe, false)
    }

    pub fn php_available(&self, probe: &RuntimeProbe) -> (r: bool)
        ensures
            r == resolved(self@, probe@, true) is Some,
    {
        self.resolve_php(probe).is_some()
    }

    pub fn dotnet_available(&self, probe: &RuntimeProbe) -> (r: bool)
        ensures
            r == resolved(self@, probe@, false) is Some,
    {
        self.resolve_dotnet(probe).is_some()
    }

    fn uses_bundled_php(&self, probe: &RuntimeProbe) -> (r: bool)
        ensures
            r == uses_bundled(self@, probe@, true),
    {
        match self.resolve_php(probe) {
            Some(p) => !is_bare_command_name(p.as_str()),
            None => false,
        }
    }

    fn uses_bundled_dotnet(&self, probe: &RuntimeProbe) -> (r: bool)
        ensures
            r == uses_bundled(self@, probe@, false),
    {
        match self.resolve_dotnet(probe) {
            Some(p) => !is_bare_command_name(p.as_str()),
            None => false,
        }
    }

    /// Where PHP comes from, for display.
    pub fn bundled_php_note(&self, probe: &RuntimeProbe) -> (r: String)
        ensures
            r@ == php_note(self@, probe@),
    {
        if self.uses_bundled_php(probe) {
            to_owned_string("PHP داخلی برنامه (بدون نیاز به PATH)")
        } else if self.php_available(probe) {
            to_owned_string("PHP از PATH سیستم")
        } else {
            to_owned_string("PHP داخلی پیدا نشد — یک‌بار scripts/setup-runtimes.ps1 را اجرا کنید")
        }
    }

    /// Where .NET comes from, for display.
    pub fn bundled_dotnet_note(&self, probe: &RuntimeProbe) -> (r: String)
        ensures
            r@ == dotnet_note(self@, probe@),
    {
        if self.uses_bundled_dotnet(probe) {
            to_owned_string("ASP.NET با .NET داخلی برنامه")
        } else if self.dotnet_available(probe) {
            to_owned_string(".NET از PATH سیستم")
        } else {
            to_owned_string(".NET داخلی پیدا نشد — scripts/setup-runtimes.ps1 را اجرا کنید")
        }
    }
}

/// A path of at most one component names a command looked up on the `PATH`.
pub fn is_bare_command_name(path: &str) -> (r: bool)
    ensures
        r == bare_command(path@),
{
    let v = chars_of(path);
    let c = path_components(v.as_slice());
    c.len() <= 1
}

} // verus!
