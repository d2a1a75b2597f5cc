//! Mapping URLs to files of the mirror, relative paths between mirrored
//! files, and content sniffing.
use vstd::prelude::*;
use crate::paths::{
    components, file_name, file_name_of, lemma_sep_end, path_components, push, push_path,
    sep_end, set_file_name, set_file_name_path, body_comps, has_root, seg_comp, Comp, PathComp, comp_view, comps_view,
};
use crate::text::{
    append_chars, chars_of, has_infix, has_prefix, has_suffix, slice_has_infix, str_has_infix,
    str_has_prefix, str_has_suffix, string_from_chars, sub_vec,
};
use crate::urls::{UrlParts, WebUrl};

verus! {

// ---------------------------------------------------------------------------
// Outside computations.
/// What `Sha256` (crate `sha2`) computes for a byte sequence.
pub uninterp spec fn sha256(data: Seq<u8>) -> Seq<u8>;

/// What `percent_decode_str(s).decode_utf8_lossy()` (crate `percent-encoding`)
/// makes of a string.
pub uninterp spec fn percent_decoded(s: Seq<char>) -> Seq<char>;

/// Calls `sha2::Sha256::digest`. The contract names the digest and states its
/// documented size of 32 bytes.
#[verifier::external_body]
fn sha256_digest(data: &[u8]) -> (r: Vec<u8>)
    ensures
        r@ == sha256(data@),
        r@.len() == 32,
{
    <sha2::Sha256 as sha2::Digest>::digest(data).to_vec()
}

/// Calls `percent_encoding::percent_decode_str` and `decode_utf8_lossy` on
/// its result. The contract names the decoded text and states what the source
/// shows for a string without `%`: no byte changes, and valid UTF-8 decodes
/// to itself.
#[verifier::external_body]
fn percent_decode(s: &str) -> (r: String)
    ensures
        r@ == percent_decoded(s@),
        !s@.contains('%') ==> r@ == s@,
{
    percent_encoding::percent_decode_str(s).decode_utf8_lossy().to_string()
}

// ---------------------------------------------------------------------------
// Hex and hashing.
pub open spec fn hex_digit(n: int) -> char {
    if n < 10 {
        ('0' as int + n) as char
    } else {
        ('a' as int + n - 10) as char
    }
}

/// Lowercase two-digit hexadecimal rendering of each byte (`{:02x}`).
pub open spec fn hex_of(bytes: Seq<u8>) -> Seq<char>
    decreases bytes.len(),
{
    if bytes.len() == 0 {
        Seq::empty()
    } else {
        hex_of(bytes.drop_last()) + seq![
            hex_digit(bytes.last() as int / 16),
            hex_digit(bytes.last() as int % 16),
        ]
    }
}

pub open spec fn min_int(a: int, b: int) -> int {
    if a < b {
        a
    } else {
        b
    }
}

fn hex_char(n: u8) -> (c: char)
    requires
        n < 16,
    ensures
        c == hex_digit(n as int),
{
    if n < 10 {
        ((48 + n) as char)
    } else {
        ((87 + n) as char)
    }
}

/// Hexadecimal rendering of the first `n` bytes.
pub fn hex_prefix(bytes: &[u8], n: usize) -> (s: String)
    ensures
        s@ == hex_of(bytes@.take(min_int(n as int, bytes@.len() as int))),
        s@.len() == 2 * min_int(n as int, bytes@.len() as int),
{
    let m = if n < bytes.len() {
        n
    } else {
        bytes.len()
    };
    let mut out: Vec<char> = Vec::new();
    let mut i: usize = 0;
    while i < m
        invariant
            m <= bytes.len(),
            m == min_int(n as int, bytes@.len() as int),
            i <= m,
            out@ == hex_of(bytes@.take(i as int)),
            out@.len() == 2 * i,
        decreases m - i,
    {
        let b = bytes[i];
        out.push(hex_char(b / 16));
        out.push(hex_char(b % 16));
        assert(bytes@.take(i + 1).drop_last() =~= bytes@.take(i as int));
        i = i + 1;
    }
    string_from_chars(out.as_slice())
}

/// The hash tag of a string: hex of the first 8 bytes of its SHA-256.
pub open spec fn short_hash_of(s: Seq<char>) -> Seq<char> {
    hex_of(sha256(vstd::utf8::encode_utf8(s)).take(8))
}

fn short_hash(input: &str) -> (s: String)
    ensures
        s@ == short_hash_of(input@),
        s@.len() == 16,
{
    let digest = sha256_digest(input.as_bytes());
    hex_prefix(digest.as_slice(), 8)
}

// ---------------------------------------------------------------------------
// Path components of a mirrored URL.
/// Characters that cannot stand in a file name (the separator `/`
/// included).
pub open spec fn is_unsafe_name_char(c: char) -> bool {
    c == '<' || c == '>' || c == ':' || c == '"' || c == '\\' || c == '|' || c == '?' || c == '*'
        || c == '/'
}

pub open spec fn sanitize_char(c: char) -> char {
    if is_unsafe_name_char(c) {
        '_'
    } else {
        c
    }
}

/// A URL segment percent-decoded: unchanged when it holds no `%`.
pub open spec fn decoded(s: Seq<char>) -> Seq<char> {
    if s.contains('%') {
        percent_decoded(s)
    } else {
        s
    }
}

/// A name that is one ordinary path component: not empty, not `.` or
/// `..`, and without unsafe characters (so without `/`).
pub open spec fn file_name_ok(x: Seq<char>) -> bool {
    &&& x.len() > 0
    &&& x != crate::paths::dot()
    &&& x != crate::paths::dot_dot()
    &&& forall|i: int| 0 <= i < x.len() ==> !is_unsafe_name_char(#[trigger] x[i])
}

/// A name that would not be one ordinary component (empty, `.` or `..`)
/// becomes as many `_` as it has characters (at least one).
pub open spec fn ordinary_name(m: Seq<char>) -> Seq<char> {
    if m.len() == 0 || m == crate::paths::dot() {
        seq!['_']
    } else if m == crate::paths::dot_dot() {
        seq!['_', '_']
    } else {
        m
    }
}

/// A percent-decoded URL segment made one safe file name: unsafe characters
/// (the separator `/` included) replaced by `_`, and an empty, `.` or `..`
/// name replaced by underscores.
pub open spec fn sanitized(s: Seq<char>) -> Seq<char> {
    ordinary_name(decoded(s).map_values(|c: char| sanitize_char(c)))
}

/// Makes decoded text one safe file name: each character that cannot stand
/// in a file name becomes `_`, and an empty, `.` or `..` name becomes
/// underscores.
pub fn sanitize_decoded(decoded: &str) -> (r: Vec<char>)
    ensures
        r@ == ordinary_name(decoded@.map_values(|c: char| sanitize_char(c))),
        file_name_ok(r@),
{
    let d = chars_of(decoded);
    let mut out: Vec<char> = Vec::new();
    let mut i: usize = 0;
    while i < d.len()
        invariant
            i <= d.len(),
            d@ == decoded@,
            out@ == d@.take(i as int).map_values(|c: char| sanitize_char(c)),
        decreases d.len() - i,
    {
        let c = d[i];
        let m = if c == '<' || c == '>' || c == ':' || c == '"' || c == '\\' || c == '|' || c
            == '?' || c == '*' || c == '/' {
            '_'
        } else {
            c
        };
        out.push(m);
        assert(d@.take(i + 1).map_values(|c: char| sanitize_char(c)) =~= d@.take(
            i as int,
        ).map_values(|c: char| sanitize_char(c)).push(sanitize_char(c)));
        i = i + 1;
    }
    assert(d@.take(d@.len() as int) =~= d@);
    let ghost m = out@;
    assert(forall|k: int| 0 <= k < m.len() ==> !is_unsafe_name_char(#[trigger] m[k]));
    if out.len() == 0 || (out.len() == 1 && out[0] == '.') {
        proof {
            if out.len() == 1 {
                assert(m =~= crate::paths::dot());
            }
        }
        let mut u: Vec<char> = Vec::new();
        u.push('_');
        assert(u@ =~= seq!['_']);
        assert(u@ != crate::paths::dot()) by {
            if u@ == crate::paths::dot() {
                assert(u@[0] == '.');
            }
        }
        assert(u@ != crate::paths::dot_dot()) by {
            if u@ == crate::paths::dot_dot() {
                assert(u@.len() == 2);
            }
        }
        return u;
    }
    if out.len() == 2 && out[0] == '.' && out[1] == '.' {
        assert(m =~= crate::paths::dot_dot());
        let mut u: Vec<char> = Vec::new();
        u.push('_');
        u.push('_');
        assert(u@ =~= seq!['_', '_']);
        assert(u@ != crate::paths::dot()) by {
            if u@ == crate::paths::dot() {
                assert(u@.len() == 1);
            }
        }
        assert(u@ != crate::paths::dot_dot()) by {
            if u@ == crate::paths::dot_dot() {
                assert(u@[0] == '.');
            }
        }
        return u;
    }
    assert(m != crate::paths::dot()) by {
        if m == crate::paths::dot() {
            assert(m[0] == '.');
        }
    }
    assert(m != crate::paths::dot_dot()) by {
        if m == crate::paths::dot_dot() {
            assert(m[0] == '.' && m[1] == '.');
        }
    }
    out
}

/// A URL segment, percent-decoded and made file-name safe.
fn sanitize_component(s: &str) -> (r: Vec<char>)
    ensures
        r@ == sanitized(s@),
        file_name_ok(r@),
{
    let decoded = percent_decode(s);
    sanitize_decoded(decoded.as_str())
}

fn sanitize_chars(s: &[char]) -> (r: Vec<char>)
    ensures
        r@ == sanitized(s@),
{
    let st = string_from_chars(s);
    sanitize_component(st.as_str())
}

/// `file_name.rsplit_once('.')` with a non-empty stem: `(stem, extension)`.
pub open spec fn split_ext(name: Seq<char>) -> (Seq<char>, Option<Seq<char>>) {
    let d = last_dot(name, name.len() as int);
    if d > 0 {
        (name.subrange(0, d), Some(name.subrange(d + 1, name.len() as int)))
    } else {
        (name, None)
    }
}

/// Index of the last `.` before `k` (or -1).
pub open spec fn last_dot(name: Seq<char>, k: int) -> int
    decreases k,
{
    if k <= 0 {
        -1
    } else if name[k - 1] == '.' {
        k - 1
    } else {
        last_dot(name, k - 1)
    }
}

pub(crate) fn split_ext_chars(name: &[char]) -> (r: (Vec<char>, Option<Vec<char>>))
    ensures
        r.0@ == split_ext(name@).0,
        r.1 is Some <==> split_ext(name@).1 is Some,
        r.1 is Some ==> r.1->0@ == split_ext(name@).1->0,
{
    let mut k = name.len();
    while k > 0 && name[k - 1] != '.'
        invariant
            k <= name.len(),
            last_dot(name@, k as int) == last_dot(name@, name@.len() as int),
        decreases k,
    {
        k = k - 1;
    }
    if k > 1 {
        let d = k - 1;
        (sub_vec(name, 0, d), Some(sub_vec(name, d + 1, name.len())))
    } else {
        (sub_vec(name, 0, name.len()), None)
    }
}

/// The segments of `s` from `i` on (split at `/`), empty ones skipped, each
/// sanitised and pushed onto `rel`.
pub open spec fn push_segments(rel: Seq<char>, s: Seq<char>, i: int) -> Seq<char>
    decreases s.len() - i,
{
    let j = sep_end(s, i);
    let seg = s.subrange(i, j);
    let next = if seg.len() > 0 {
        push(rel, sanitized(seg))
    } else {
        rel
    };
    if 0 <= i <= j < s.len() {
        push_segments(next, s, j + 1)
    } else if 0 <= i <= s.len() {
        next
    } else {
        rel
    }
}

/// Number of leading `/` in `s`.
pub open spec fn leading_slashes(s: Seq<char>, i: int) -> int
    decreases s.len() - i,
{
    if 0 <= i < s.len() && s[i] == '/' {
        leading_slashes(s, i + 1)
    } else {
        i
    }
}

pub open spec fn unknown_host() -> Seq<char> {
    seq!['u', 'n', 'k', 'n', 'o', 'w', 'n', '-', 'h', 'o', 's', 't']
}

pub open spec fn index_html() -> Seq<char> {
    seq!['i', 'n', 'd', 'e', 'x', '.', 'h', 't', 'm', 'l']
}

pub open spec fn external_dir() -> Seq<char> {
    seq!['_', 'e', 'x', 't', 'e', 'r', 'n', 'a', 'l']
}

/// The URL path with `index.html` appended to a directory path.
pub open spec fn page_path(u: UrlParts) -> Seq<char> {
    if u.path.len() == 0 || u.path.last() == '/' {
        u.path + index_html()
    } else {
        u.path
    }
}

/// The mirrored file before any query disambiguation.
pub open spec fn plain_local_path(u: UrlParts, site_host: Seq<char>) -> Seq<char> {
    let host = if u.host is Some {
        u.host->0
    } else {
        unknown_host()
    };
    let base = if host != site_host {
        push(external_dir(), sanitized(host))
    } else {
        Seq::empty()
    };
    let p = page_path(u);
    let rel = push_segments(base, p, leading_slashes(p, 0));
    if rel.len() == 0 {
        index_html()
    } else {
        rel
    }
}

/// The file name with the hash tag inserted before the extension.
pub open spec fn tagged_name(name: Seq<char>, tag: Seq<char>) -> Seq<char> {
    let (stem, ext) = split_ext(name);
    if ext is Some {
        stem + seq!['.'] + tag + seq!['.'] + ext->0
    } else {
        stem + seq!['.'] + tag
    }
}

/// The relative file a URL is mirrored to:
/// * same-host URLs under their path, other hosts under `_external/<host>/`;
/// * directory paths (empty or ending in `/`) as `index.html`;
/// * every segment percent-decoded and made file-name safe;
/// * with a query, the file name tagged with a hash of the whole URL, so
///   that query variants are distinct files.
pub open spec fn local_path(u: UrlParts, site_host: Seq<char>) -> Seq<char> {
    let rel = plain_local_path(u, site_host);
    if u.query is Some {
        tagged_path(rel, short_hash_of(u.href))
    } else {
        rel
    }
}

fn lit(s: &str) -> (v: Vec<char>)
    ensures
        v@ == s@,
{
    chars_of(s)
}

/// Turns a URL into a safe, deterministic relative file path (separator
/// `/`) under the output directory.
pub fn url_to_local_path(url: &WebUrl, site_host: &str) -> (r: String)
    ensures
        r@ == local_path(url@, site_host@),
{
    let ghost u = url@;
    let host: Vec<char> = match url.host_str() {
        Some(h) => chars_of(h),
        None => {
            let v = lit("unknown-host");
            proof {
                reveal_strlit("unknown-host");
                assert(v@ =~= unknown_host());
            }
            v
        },
    };
    let idx = lit("index.html");
    proof {
        reveal_strlit("index.html");
        assert(idx@ =~= index_html());
    }
    let site = chars_of(site_host);
    let mut rel: Vec<char> = Vec::new();
    let same = host.len() == site.len() && crate::text::slice_has_prefix(
        host.as_slice(),
        site.as_slice(),
    );
    proof {
        if same {
            assert(host@ =~= site@);
        }
        if host@ == site@ {
            assert(host@.subrange(0, site@.len() as int) =~= host@);
        }
    }
    if !same {
        let ext = lit("_external");
        proof {
            reveal_strlit("_external");
            assert(ext@ =~= external_dir());
        }
        append_chars(&mut rel, ext.as_slice());
        assert(rel@ =~= external_dir());
        let sh = sanitize_chars(host.as_slice());
        push_path(&mut rel, sh.as_slice());
    }
    let mut path = chars_of(url.path());
    if path.len() == 0 || path[path.len() - 1] == '/' {
        append_chars(&mut path, idx.as_slice());
    }
    assert(path@ == page_path(u));
    let mut i: usize = 0;
    while i < path.len() && path[i] == '/'
        invariant
            i <= path.len(),
            leading_slashes(path@, i as int) == leading_slashes(path@, 0),
        decreases path.len() - i,
    {
        i = i + 1;
    }
    let ghost base = rel@;
    let ghost hostv = if u.host is Some {
        u.host->0
    } else {
        unknown_host()
    };
    assert(host@ == hostv);
    assert(same == (hostv == site_host@));
    assert(base == (if hostv != site_host@ {
        push(external_dir(), sanitized(hostv))
    } else {
        Seq::<char>::empty()
    }));
    loop
        invariant_except_break
            i <= path.len(),
            push_segments(rel@, path@, i as int) == push_segments(
                base,
                path@,
                leading_slashes(path@, 0),
            ),
        ensures
            rel@ == push_segments(base, path@, leading_slashes(path@, 0)),
        decreases path.len() - i,
    {
        let j = crate::paths::find_sep(path.as_slice(), i);
        proof {
            lemma_sep_end(path@, i as int);
        }
        if j > i {
            let seg = sub_vec(path.as_slice(), i, j);
            let sseg = sanitize_chars(seg.as_slice());
            push_path(&mut rel, sseg.as_slice());
        }
        if j < path.len() {
            i = j + 1;
        } else {
            break;
        }
    }
    if rel.len() == 0 {
        rel = idx.clone();
        assert(rel@ == idx@);
    }
    assert(rel@ == plain_local_path(u, site_host@));
    if url.query().is_some() {
        let tag = short_hash(url.as_str());
        let rs = string_from_chars(rel.as_slice());
        tag_file_name(rs.as_str(), tag.as_str())
    } else {
        string_from_chars(rel.as_slice())
    }
}

/// The file name of a path with a query, tagged: the last component (or
/// `index.html` when there is none) with the tag put before its extension.
pub open spec fn tagged_path(rel: Seq<char>, tag: Seq<char>) -> Seq<char> {
    let name = if file_name(rel) is Some {
        file_name(rel)->0
    } else {
        index_html()
    };
    set_file_name(rel, tagged_name(name, tag))
}

/// Tags the file name of `rel` with `tag` (see `tagged_path`).
pub fn tag_file_name(rel: &str, tag: &str) -> (r: String)
    ensures
        r@ == tagged_path(rel@, tag@),
{
    let rv = chars_of(rel);
    let idx = lit("index.html");
    proof {
        reveal_strlit("index.html");
        assert(idx@ =~= index_html());
    }
    let name = match file_name_of(rv.as_slice()) {
        Some(n) => n,
        None => idx,
    };
    let (stem, ext) = split_ext_chars(name.as_slice());
    let mut newname = stem;
    newname.push('.');
    let tagv = chars_of(tag);
    append_chars(&mut newname, tagv.as_slice());
    match ext {
        Some(e) => {
            newname.push('.');
            append_chars(&mut newname, e.as_slice());
        },
        None => {},
    }
    assert(newname@ =~= tagged_name(name@, tag@));
    let out = set_file_name_path(&rv, newname.as_slice());
    string_from_chars(out.as_slice())
}

// ---------------------------------------------------------------------------
// Relative paths between mirrored files.
/// The components without `.` ones.
pub open spec fn drop_cur(c: Seq<Comp>) -> Seq<Comp>
    decreases c.len(),
{
    if c.len() == 0 {
        Seq::empty()
    } else if c.last() is Cur {
        drop_cur(c.drop_last())
    } else {
        drop_cur(c.drop_last()).push(c.last())
    }
}

/// Components of `Path::parent` (none when there is no parent).
pub open spec fn parent_comps(p: Seq<char>) -> Seq<Comp> {
    let c = components(p);
    if c.len() > 0 && !(c.last() is Root) {
        c.drop_last()
    } else {
        Seq::empty()
    }
}

/// Length of the longest common prefix of `a` and `b`, counting from `k`.
pub open spec fn common_len(a: Seq<Comp>, b: Seq<Comp>, k: int) -> int
    decreases a.len() - k,
{
    if 0 <= k < a.len() && k < b.len() && a[k] == b[k] {
        common_len(a, b, k + 1)
    } else {
        k
    }
}

proof fn lemma_common_len(a: Seq<Comp>, b: Seq<Comp>, k: int)
    requires
        0 <= k <= a.len(),
        k <= b.len(),
    ensures
        k <= common_len(a, b, k) <= a.len(),
        common_len(a, b, k) <= b.len(),
    decreases a.len() - k,
{
    if k < a.len() && k < b.len() && a[k] == b[k] {
        lemma_common_len(a, b, k + 1);
    }
}

/// `Component::as_os_str`.
pub open spec fn comp_text(c: Comp) -> Seq<char> {
    match c {
        Comp::Root => seq!['/'],
        Comp::Cur => crate::paths::dot(),
        Comp::Parent => crate::paths::dot_dot(),
        Comp::Normal(s) => s,
    }
}

/// Pushes each piece in turn onto `buf`.
pub open spec fn push_all(buf: Seq<char>, ps: Seq<Seq<char>>) -> Seq<char>
    decreases ps.len(),
{
    if ps.len() == 0 {
        buf
    } else {
        push(push_all(buf, ps.drop_last()), ps.last())
    }
}

/// The pieces of the relative path: one `..` per directory of `from` below
/// the common part, then the rest of `to`.
pub open spec fn rel_pieces(from: Seq<char>, to: Seq<char>) -> Seq<Seq<char>> {
    let f = drop_cur(parent_comps(from));
    let t = drop_cur(components(to));
    pieces_of(f, t, common_len(f, t, 0))
}

/// One `..` per component of `f` after the first `k`, then the components
/// of `t` after the first `k`.
pub open spec fn pieces_of(f: Seq<Comp>, t: Seq<Comp>, k: int) -> Seq<Seq<char>> {
    Seq::new((f.len() - k) as nat, |i: int| crate::paths::dot_dot()) + t.skip(k).map_values(
        |c: Comp| comp_text(c),
    )
}

pub open spec fn backslash_to_slash(s: Seq<char>) -> Seq<char> {
    s.map_values(|c: char| if c == '\\' { '/' } else { c })
}

/// The path from the directory of `from` to `to`, with `/` separators, or
/// `.` when it is empty.
pub open spec fn relative(from: Seq<char>, to: Seq<char>) -> Seq<char> {
    let s = backslash_to_slash(push_all(Seq::empty(), rel_pieces(from, to)));
    if s.len() == 0 {
        crate::paths::dot()
    } else {
        s
    }
}

fn copy_comp(c: &PathComp) -> (r: PathComp)
    ensures
        comp_view(r) == comp_view(*c),
{
    match c {
        PathComp::Root => PathComp::Root,
        PathComp::Cur => PathComp::Cur,
        PathComp::Parent => PathComp::Parent,
        PathComp::Normal(v) => {
            let w = sub_vec(v.as_slice(), 0, v.len());
            proof {
                lemma_sub_all(v@);
            }
            PathComp::Normal(w)
        },
    }
}

proof fn lemma_sub_all(v: Seq<char>)
    ensures
        v.subrange(0, v.len() as int) == v,
{
    assert(v.subrange(0, v.len() as int) =~= v);
}

pub(crate) fn comp_eq(a: &PathComp, b: &PathComp) -> (r: bool)
    ensures
        r == (comp_view(*a) == comp_view(*b)),
{
    match (a, b) {
        (PathComp::Root, PathComp::Root) => true,
        (PathComp::Cur, PathComp::Cur) => true,
        (PathComp::Parent, PathComp::Parent) => true,
        (PathComp::Normal(x), PathComp::Normal(y)) => {
            if x.len() != y.len() {
                return false;
            }
            let r = crate::text::slice_has_prefix(x.as_slice(), y.as_slice());
            proof {
                if r {
                    assert(x@ =~= y@);
                }
                if x@ == y@ {
                    assert(x@.subrange(0, y@.len() as int) =~= x@);
                }
            }
            r
        },
        _ => false,
    }
}

/// The first `n` components without `.` ones.
fn without_cur(c: &Vec<PathComp>, n: usize) -> (r: Vec<PathComp>)
    requires
        n <= c.len(),
    ensures
        comps_view(r@) == drop_cur(comps_view(c@).take(n as int)),
{
    let mut r: Vec<PathComp> = Vec::new();
    let mut i: usize = 0;
    while i < n
        invariant
            n <= c.len(),
            i <= n,
            comps_view(r@) == drop_cur(comps_view(c@).take(i as int)),
        decreases n - i,
    {
        let ghost before = comps_view(r@);
        assert(comps_view(c@).take(i + 1).drop_last() =~= comps_view(c@).take(i as int));
        assert(comps_view(c@).take(i + 1).last() == comp_view(c@[i as int]));
        match &c[i] {
            PathComp::Cur => {},
            other => {
                let x = copy_comp(other);
                r.push(x);
                assert(comps_view(r@) =~= before.push(comp_view(c@[i as int])));
            },
        }
        i = i + 1;
    }
    r
}

fn comp_chars(c: &PathComp) -> (r: Vec<char>)
    ensures
        r@ == comp_text(comp_view(*c)),
{
    match c {
        PathComp::Root => {
            let v = vec!['/'];
            assert(v@ =~= seq!['/']);
            v
        },
        PathComp::Cur => {
            let v = vec!['.'];
            assert(v@ =~= crate::paths::dot());
            v
        },
        PathComp::Parent => {
            let v = vec!['.', '.'];
            assert(v@ =~= crate::paths::dot_dot());
            v
        },
        PathComp::Normal(v) => {
            let r = sub_vec(v.as_slice(), 0, v.len());
            proof {
                lemma_sub_all(v@);
            }
            r
        },
    }
}

/// The directory components of `from` and the components of `to`, both
/// without `.` components.
fn dir_and_target(from_file: &str, to_file: &str) -> (r: (Vec<PathComp>, Vec<PathComp>))
    ensures
        comps_view(r.0@) == drop_cur(parent_comps(from_file@)),
        comps_view(r.1@) == drop_cur(components(to_file@)),
{
    let fv = chars_of(from_file);
    let tv = chars_of(to_file);
    let fc = path_components(fv.as_slice());
    let tc = path_components(tv.as_slice());
    let keep = if fc.len() > 0 {
        match &fc[fc.len() - 1] {
            PathComp::Root => 0,
            _ => fc.len() - 1,
        }
    } else {
        0
    };
    proof {
        let c = comps_view(fc@);
        if c.len() > 0 {
            assert(c.last() == comp_view(fc@.last()));
            if !(c.last() is Root) {
                assert(c.take(keep as int) =~= c.drop_last());
            }
        }
        assert(c.take(0) =~= Seq::<Comp>::empty());
        assert(comps_view(tc@).take(tc@.len() as int) =~= comps_view(tc@));
    }
    let f = without_cur(&fc, keep);
    let t = without_cur(&tc, tc.len());
    (f, t)
}

/// Length of the common prefix of two component lists.
fn common_prefix_len(f: &Vec<PathComp>, t: &Vec<PathComp>) -> (k: usize)
    ensures
        k == common_len(comps_view(f@), comps_view(t@), 0),
        k <= f.len(),
        k <= t.len(),
{
    let ghost fs = comps_view(f@);
    let ghost ts = comps_view(t@);
    let mut k: usize = 0;
    while k < f.len() && k < t.len() && comp_eq(&f[k], &t[k])
        invariant
            k <= f.len(),
            common_len(fs, ts, k as int) == common_len(fs, ts, 0),
            fs == comps_view(f@),
            ts == comps_view(t@),
        decreases f.len() - k,
    {
        k = k + 1;
    }
    proof {
        lemma_common_len(fs, ts, 0);
    }
    k
}

/// The pieces of a relative path pushed one after another.
fn join_pieces(f: &Vec<PathComp>, t: &Vec<PathComp>, k: usize) -> (buf: Vec<char>)
    requires
        k <= f.len(),
        k <= t.len(),
    ensures
        buf@ == push_all(Seq::empty(), pieces_of(comps_view(f@), comps_view(t@), k as int)),
{
    let ghost fs = comps_view(f@);
    let ghost ts = comps_view(t@);
    let ghost pieces = pieces_of(fs, ts, k as int);
    assert(pieces.len() == (f.len() - k) + (t.len() - k));
    assert forall|m: int| 0 <= m < f.len() - k implies pieces[m] == crate::paths::dot_dot() by {}
    assert forall|m: int| 0 <= m < t.len() - k implies pieces[f.len() - k + m] == comp_text(
        #[trigger] ts[k + m],
    ) by {}
    let mut buf: Vec<char> = Vec::new();
    let ups = f.len() - k;
    let mut i: usize = 0;
    let dd = vec!['.', '.'];
    assert(dd@ =~= crate::paths::dot_dot());
    assert(pieces.take(0) =~= Seq::<Seq<char>>::empty());
    while i < ups
        invariant
            i <= ups,
            ups == f.len() - k,
            k <= t.len(),
            pieces == pieces_of(fs, ts, k as int),
            dd@ == crate::paths::dot_dot(),
            pieces.len() == ups + t.len() - k,
            forall|m: int| 0 <= m < ups ==> pieces[m] == crate::paths::dot_dot(),
            buf@ == push_all(Seq::empty(), pieces.take(i as int)),
        decreases ups - i,
    {
        push_path(&mut buf, dd.as_slice());
        assert(pieces.take(i + 1).drop_last() =~= pieces.take(i as int));
        assert(pieces.take(i + 1).last() == pieces[i as int]);
        i = i + 1;
    }
    let mut j: usize = k;
    while j < t.len()
        invariant
            k <= j <= t.len(),
            ups == f.len() - k,
            ts == comps_view(t@),
            pieces == pieces_of(fs, ts, k as int),
            pieces.len() == ups + t.len() - k,
            forall|m: int| 0 <= m < t.len() - k ==> pieces[ups + m] == comp_text(#[trigger] ts[k + m]),
            buf@ == push_all(Seq::empty(), pieces.take(ups + j - k)),
        decreases t.len() - j,
    {
        let piece = comp_chars(&t[j]);
        assert(pieces[ups + (j - k)] == comp_text(ts[k + (j - k)]));
        push_path(&mut buf, piece.as_slice());
        assert(pieces.take(ups + j + 1 - k).drop_last() =~= pieces.take(ups + j - k));
        assert(pieces.take(ups + j + 1 - k).last() == pieces[ups + j - k]);
        j = j + 1;
    }
    assert(pieces.take(pieces.len() as int) =~= pieces);
    buf
}

/// Every `\\` turned into `/`.
fn slashes_forward(buf: &Vec<char>) -> (out: Vec<char>)
    ensures
        out@ == backslash_to_slash(buf@),
{
    let mut out: Vec<char> = Vec::new();
    let mut m: usize = 0;
    while m < buf.len()
        invariant
            m <= buf.len(),
            out@ == backslash_to_slash(buf@.take(m as int)),
        decreases buf.len() - m,
    {
        let c = buf[m];
        out.push(if c == '\\' { '/' } else { c });
        assert(backslash_to_slash(buf@.take(m + 1)) =~= backslash_to_slash(buf@.take(m as int)).push(
            if c == '\\' { '/' } else { c },
        ));
        m = m + 1;
    }
    assert(buf@.take(buf@.len() as int) =~= buf@);
    out
}

/// Computes the relative path from `from_file` to `to_file`, both given as
/// paths relative to the same root, with `/` separators (`.` when empty).
pub fn relative_path(from_file: &str, to_file: &str) -> (r: String)
    ensures
        r@ == relative(from_file@, to_file@),
{
    let (f, t) = dir_and_target(from_file, to_file);
    let k = common_prefix_len(&f, &t);
    let buf = join_pieces(&f, &t, k);
    let out = slashes_forward(&buf);
    if out.len() == 0 {
        let d = vec!['.'];
        assert(d@ =~= crate::paths::dot());
        string_from_chars(d.as_slice())
    } else {
        string_from_chars(out.as_slice())
    }
}

// ---------------------------------------------------------------------------
// Content sniffing.
pub open spec fn ascii_lower(b: u8) -> u8 {
    if 65 <= b <= 90 {
        (b + 32) as u8
    } else {
        b
    }
}

/// The lowercase ASCII pattern `p` occurs in `h` at `i`, ignoring ASCII case.
pub open spec fn ci_bytes_at(h: Seq<u8>, p: Seq<u8>, i: int) -> bool {
    0 <= i && i + p.len() <= h.len() && forall|k: int| 0 <= k < p.len() ==> ascii_lower(h[i + k]) == p[k]
}

pub open spec fn ci_bytes_has(h: Seq<u8>, p: Seq<u8>) -> bool {
    exists|i: int| ci_bytes_at(h, p, i)
}

/// `<html`.
pub open spec fn html_open_tag() -> Seq<u8> {
    seq![60u8, 104u8, 116u8, 109u8, 108u8]
}

/// `<!doctype html`.
pub open spec fn doctype_html() -> Seq<u8> {
    seq![60u8, 33u8, 100u8, 111u8, 99u8, 116u8, 121u8, 112u8, 101u8, 32u8, 104u8, 116u8, 109u8, 108u8]
}

/// The first 512 bytes mention `<html` or `<!doctype html`, in any ASCII case.
/// (Lossy UTF-8 decoding keeps every ASCII byte as its own character and
/// Unicode lowercasing maps no other character onto the letters of these
/// tags, so this is what a case-insensitive search of the decoded text
/// finds.)
pub open spec fn sniffs_html(bytes: Seq<u8>) -> bool {
    let h = bytes.take(min_int(bytes.len() as int, 512));
    ci_bytes_has(h, html_open_tag()) || ci_bytes_has(h, doctype_html())
}

/// What a content type alone says about HTML: `Some(true)` for an HTML type,
/// `Some(false)` for a non-text type that does not mention html, `None` when
/// the body must be sniffed.
pub open spec fn content_type_says_html(ct: Seq<char>) -> Option<bool> {
    if has_infix(ct, "text/html"@) || has_infix(ct, "application/xhtml"@) {
        Some(true)
    } else if !has_prefix(ct, "text/"@) && !has_infix(ct, "html"@) {
        Some(false)
    } else {
        None
    }
}

pub open spec fn probably_html(content_type: Option<Seq<char>>, bytes: Seq<u8>) -> bool {
    match content_type {
        Some(ct) => match content_type_says_html(ct) {
            Some(b) => b,
            None => sniffs_html(bytes),
        },
        None => sniffs_html(bytes),
    }
}

fn ci_bytes_occurs_at(h: &[u8], p: &[u8], i: usize) -> (b: bool)
    ensures
        b == ci_bytes_at(h@, p@, i as int),
{
    if i > h.len() || p.len() > h.len() - i {
        return false;
    }
    let mut k: usize = 0;
    while k < p.len()
        invariant
            i + p.len() <= h.len(),
            k <= p.len(),
            forall|m: int| 0 <= m < k ==> ascii_lower(h@[i + m]) == p@[m],
        decreases p.len() - k,
    {
        let c = h[i + k];
        let l = if 65 <= c && c <= 90 {
            c + 32
        } else {
            c
        };
        if l != p[k] {
            return false;
        }
        k = k + 1;
    }
    true
}

fn ci_bytes_contains(h: &[u8], hl: usize, p: &[u8]) -> (b: bool)
    requires
        hl <= h.len(),
        p.len() > 0,
    ensures
        b == ci_bytes_has(h@.take(hl as int), p@),
{
    let ghost hh = h@.take(hl as int);
    let mut i: usize = 0;
    while i < hl
        invariant
            hl <= h.len(),
            hh == h@.take(hl as int),
            i <= hl,
            p.len() > 0,
            forall|j: int| 0 <= j < i ==> !ci_bytes_at(hh, p@, j),
        decreases hl - i,
    {
        if p.len() <= hl - i && ci_bytes_occurs_at(h, p, i) {
            assert(ci_bytes_at(hh, p@, i as int));
            return true;
        }
        assert(!ci_bytes_at(hh, p@, i as int));
        i = i + 1;
    }
    assert forall|j: int| !ci_bytes_at(hh, p@, j) by {
        if 0 <= j && j >= hl {
            assert(j + p@.len() > hh.len());
        }
    }
    false
}

/// Heuristic: does a response (content type, body) look like an HTML page?
pub fn is_probably_html(content_type: Option<&str>, bytes: &[u8]) -> (b: bool)
    ensures
        b == probably_html(
            match content_type {
                Some(ct) => Some(ct@),
                None => None,
            },
            bytes@,
        ),
{
    if let Some(ct) = content_type {
        if str_has_infix(ct, "text/html") || str_has_infix(ct, "application/xhtml") {
            return true;
        }
        if !str_has_prefix(ct, "text/") && !str_has_infix(ct, "html") {
            return false;
        }
    }
    let hl = if bytes.len() < 512 {
        bytes.len()
    } else {
        512
    };
    let tag = vec![60u8, 104u8, 116u8, 109u8, 108u8];
    let doc = vec![60u8, 33u8, 100u8, 111u8, 99u8, 116u8, 121u8, 112u8, 101u8, 32u8, 104u8, 116u8, 109u8, 108u8];
    assert(tag@ =~= html_open_tag());
    assert(doc@ =~= doctype_html());
    ci_bytes_contains(bytes, hl, tag.as_slice()) || ci_bytes_contains(bytes, hl, doc.as_slice())
}

/// Heuristic: is a resource a stylesheet (by content type, else by path)?
pub fn is_probably_css(content_type: Option<&str>, path: &str) -> (b: bool)
    ensures
        b == ((content_type is Some && has_infix(content_type->0@, "text/css"@)) || has_suffix(
            path@,
            ".css"@,
        )),
{
    if let Some(ct) = content_type {
        if str_has_infix(ct, "text/css") {
            return true;
        }
    }
    str_has_suffix(path, ".css")
}

// ---------------------------------------------------------------------------
// The law of relative paths.
/// The directory reached from `dir` by the pieces of a relative path in
/// turn: `..` steps up, any other piece steps into the named entry.
pub open spec fn resolve_pieces(dir: Seq<Comp>, pieces: Seq<Seq<char>>) -> Seq<Comp>
    decreases pieces.len(),
{
    if pieces.len() == 0 {
        dir
    } else {
        let d = resolve_pieces(dir, pieces.drop_last());
        if pieces.last() == crate::paths::dot_dot() {
            if d.len() > 0 {
                d.drop_last()
            } else {
                d
            }
        } else {
            d.push(Comp::Normal(pieces.last()))
        }
    }
}

proof fn lemma_resolve_concat(d: Seq<Comp>, a: Seq<Seq<char>>, b: Seq<Seq<char>>)
    ensures
        resolve_pieces(d, a + b) == resolve_pieces(resolve_pieces(d, a), b),
    decreases b.len(),
{
    if b.len() == 0 {
        assert(a + b =~= a);
    } else {
        assert((a + b).drop_last() =~= a + b.drop_last());
        lemma_resolve_concat(d, a, b.drop_last());
    }
}

proof fn lemma_resolve_ups(d: Seq<Comp>, m: int)
    requires
        0 <= m <= d.len(),
    ensures
        resolve_pieces(d, Seq::new(m as nat, |i: int| crate::paths::dot_dot())) == d.take(d.len() - m),
    decreases m,
{
    let ups = Seq::new(m as nat, |i: int| crate::paths::dot_dot());
    if m == 0 {
        assert(d.take(d.len() as int) =~= d);
    } else {
        let prev = Seq::new((m - 1) as nat, |i: int| crate::paths::dot_dot());
        assert(ups.drop_last() =~= prev);
        lemma_resolve_ups(d, m - 1);
        assert(d.take(d.len() - (m - 1)).drop_last() =~= d.take(d.len() - m));
    }
}

/// An ordinary component: a name, not `..`.
pub open spec fn plain_name(c: Comp) -> bool {
    c is Normal && c->Normal_0 != crate::paths::dot_dot()
}

proof fn lemma_resolve_names(x: Seq<Comp>, s: Seq<Comp>)
    requires
        forall|i: int| 0 <= i < s.len() ==> plain_name(#[trigger] s[i]),
    ensures
        resolve_pieces(x, s.map_values(|c: Comp| comp_text(c))) == x + s,
    decreases s.len(),
{
    let ps = s.map_values(|c: Comp| comp_text(c));
    if s.len() == 0 {
        assert(x + s =~= x);
    } else {
        assert(ps.drop_last() =~= s.drop_last().map_values(|c: Comp| comp_text(c)));
        lemma_resolve_names(x, s.drop_last());
        assert(plain_name(s[s.len() - 1]));
        assert(ps.last() == s.last()->Normal_0);
        assert((x + s.drop_last()).push(s.last()) =~= x + s);
    }
}

proof fn lemma_common_prefix(a: Seq<Comp>, b: Seq<Comp>, k: int)
    requires
        0 <= k <= a.len(),
        k <= b.len(),
    ensures
        forall|j: int| k <= j < common_len(a, b, k) ==> a[j] == b[j],
    decreases a.len() - k,
{
    if k < a.len() && k < b.len() && a[k] == b[k] {
        lemma_common_prefix(a, b, k + 1);
    }
}

proof fn lemma_seg_comp_plain(seg: Seq<char>)
    ensures
        forall|i: int| 0 <= i < seg_comp(seg).len() ==> #[trigger] seg_comp(seg)[i] != Comp::Normal(
            crate::paths::dot_dot(),
        ),
{
}

proof fn lemma_body_comps_plain(p: Seq<char>, i: int)
    ensures
        forall|k: int| 0 <= k < body_comps(p, i).len() ==> #[trigger] body_comps(p, i)[k] != Comp::Normal(
            crate::paths::dot_dot(),
        ),
    decreases p.len() - i,
{
    let j = sep_end(p, i);
    if 0 <= i <= p.len() {
        lemma_sep_end(p, i);
    }
    if 0 <= i <= j < p.len() {
        lemma_body_comps_plain(p, j + 1);
        lemma_seg_comp_plain(p.subrange(i, j));
        let a = seg_comp(p.subrange(i, j));
        let b = body_comps(p, j + 1);
        assert forall|k: int| 0 <= k < (a + b).len() implies #[trigger] (a + b)[k] != Comp::Normal(
            crate::paths::dot_dot(),
        ) by {
            if k < a.len() {
                assert((a + b)[k] == a[k]);
            } else {
                assert((a + b)[k] == b[k - a.len()]);
            }
        }
    } else if 0 <= i <= p.len() {
        lemma_seg_comp_plain(p.subrange(i, p.len() as int));
    }
}

proof fn lemma_drop_cur_plain(c: Seq<Comp>)
    requires
        forall|k: int| 0 <= k < c.len() ==> #[trigger] c[k] != Comp::Normal(crate::paths::dot_dot()),
    ensures
        forall|k: int| 0 <= k < drop_cur(c).len() ==> #[trigger] drop_cur(c)[k] != Comp::Normal(
            crate::paths::dot_dot(),
        ),
        forall|k: int| 0 <= k < drop_cur(c).len() ==> !(#[trigger] drop_cur(c)[k] is Cur),
    decreases c.len(),
{
    if c.len() > 0 {
        assert forall|k: int| 0 <= k < c.drop_last().len() implies #[trigger] c.drop_last()[k]
            != Comp::Normal(crate::paths::dot_dot()) by {
            assert(c.drop_last()[k] == c[k]);
        }
        lemma_drop_cur_plain(c.drop_last());
    }
}

/// The relative paths written into mirrored pages lead where they should:
/// when `to` has only ordinary components (no root, no `..`), stepping from
/// the directory of `from` through the pieces of `relative_path(from, to)`
/// reaches `to` (both without `.` components).
pub proof fn law_relative_path_reaches_target(from: Seq<char>, to: Seq<char>)
    requires
        forall|i: int|
            0 <= i < drop_cur(components(to)).len() ==> #[trigger] drop_cur(components(to))[i] is Normal,
    ensures
        resolve_pieces(drop_cur(parent_comps(from)), rel_pieces(from, to)) == drop_cur(components(to)),
{
    let f = drop_cur(parent_comps(from));
    let t = drop_cur(components(to));
    let k = common_len(f, t, 0);
    lemma_common_len(f, t, 0);
    lemma_common_prefix(f, t, 0);
    let c = components(to);
    let head: Seq<Comp> = if has_root(to) {
        seq![Comp::Root]
    } else if crate::paths::has_cur(to) {
        seq![Comp::Cur]
    } else {
        Seq::empty()
    };
    lemma_body_comps_plain(to, crate::paths::body_start(to));
    let bc = body_comps(to, crate::paths::body_start(to));
    assert forall|j: int| 0 <= j < c.len() implies #[trigger] c[j] != Comp::Normal(crate::paths::dot_dot()) by {
        assert(c == head + bc);
        if j < head.len() {
            assert(c[j] == head[j]);
        } else {
            assert(c[j] == bc[j - head.len()]);
        }
    }
    lemma_drop_cur_plain(c);
    let ups = Seq::new((f.len() - k) as nat, |i: int| crate::paths::dot_dot());
    let rest = t.skip(k);
    assert forall|i: int| 0 <= i < rest.len() implies plain_name(#[trigger] rest[i]) by {
        assert(rest[i] == t[i + k]);
    }
    lemma_resolve_concat(f, ups, rest.map_values(|c: Comp| comp_text(c)));
    lemma_resolve_ups(f, f.len() - k);
    lemma_resolve_names(f.take(k), rest);
    assert(f.take(k) =~= t.take(k));
    assert(t.take(k) + t.skip(k) =~= t);
}

proof fn lemma_common_len_stops(a: Seq<Comp>, b: Seq<Comp>, k: int)
    requires
        0 <= k <= a.len(),
        k <= b.len(),
    ensures
        common_len(a, b, k) < a.len() && common_len(a, b, k) < b.len() ==> a[common_len(a, b, k)]
            != b[common_len(a, b, k)],
    decreases a.len() - k,
{
    if k < a.len() && k < b.len() && a[k] == b[k] {
        lemma_common_len_stops(a, b, k + 1);
    }
}

/// The relative paths written into mirrored pages climb no higher than they
/// must: from the directory of `from`, a path of fewer `..` steps than
/// `relative_path(from, to)` has, followed by any names other than `..`,
/// does not reach `to`.
pub proof fn law_relative_path_climbs_least(
    from: Seq<char>,
    to: Seq<char>,
    m: int,
    names: Seq<Seq<char>>,
)
    requires
        0 <= m,
        m < drop_cur(parent_comps(from)).len() - common_len(
            drop_cur(parent_comps(from)),
            drop_cur(components(to)),
            0,
        ),
        forall|i: int| 0 <= i < names.len() ==> #[trigger] names[i] != crate::paths::dot_dot(),
    ensures
        resolve_pieces(
            drop_cur(parent_comps(from)),
            Seq::new(m as nat, |i: int| crate::paths::dot_dot()) + names,
        ) != drop_cur(components(to)),
{
    let f = drop_cur(parent_comps(from));
    let t = drop_cur(components(to));
    let k = common_len(f, t, 0);
    lemma_common_len(f, t, 0);
    lemma_common_len_stops(f, t, 0);
    let ups = Seq::new(m as nat, |i: int| crate::paths::dot_dot());
    let s = names.map_values(|n: Seq<char>| Comp::Normal(n));
    assert(s.map_values(|c: Comp| comp_text(c)) =~= names);
    assert forall|i: int| 0 <= i < s.len() implies plain_name(#[trigger] s[i]) by {
        assert(s[i] == Comp::Normal(names[i]));
    }
    lemma_resolve_concat(f, ups, names);
    lemma_resolve_ups(f, m);
    lemma_resolve_names(f.take(f.len() - m), s);
    let r = f.take(f.len() - m) + s;
    assert(resolve_pieces(f, ups + names) == r);
    if r == t {
        assert(r[k] == f[k]);
        assert(false);
    }
}

// ---------------------------------------------------------------------------
// The law of query variants.
proof fn lemma_push_injective(p: Seq<char>, x: Seq<char>, y: Seq<char>)
    requires
        x.len() > 0,
        y.len() > 0,
        x[0] == y[0],
        push(p, x) == push(p, y),
    ensures
        x == y,
{
    if x[0] == '/' {
    } else if p.len() > 0 && p.last() != '/' {
        let q = p + seq!['/'];
        assert(push(p, x) == q + x);
        assert(push(p, y) == q + y);
        assert(x =~= (q + x).subrange(q.len() as int, (q + x).len() as int));
        assert(y =~= (q + y).subrange(q.len() as int, (q + y).len() as int));
    } else {
        assert(x =~= (p + x).subrange(p.len() as int, (p + x).len() as int));
        assert(y =~= (p + y).subrange(p.len() as int, (p + y).len() as int));
    }
}

proof fn lemma_tagged_injective(name: Seq<char>, a: Seq<char>, b: Seq<char>)
    requires
        tagged_name(name, a) == tagged_name(name, b),
    ensures
        a == b,
{
    let (stem, ext) = split_ext(name);
    let pre = stem + seq!['.'];
    if ext is Some {
        let post = seq!['.'] + ext->0;
        assert(tagged_name(name, a) =~= pre + a + post);
        assert(tagged_name(name, b) =~= pre + b + post);
        assert(a.len() == b.len());
        assert(a =~= (pre + a + post).subrange(pre.len() as int, (pre.len() + a.len()) as int));
        assert(b =~= (pre + b + post).subrange(pre.len() as int, (pre.len() + b.len()) as int));
    } else {
        assert(a =~= (pre + a).subrange(pre.len() as int, (pre.len() + a.len()) as int));
        assert(b =~= (pre + b).subrange(pre.len() as int, (pre.len() + b.len()) as int));
    }
}

proof fn lemma_tagged_first(name: Seq<char>, a: Seq<char>)
    ensures
        tagged_name(name, a).len() > 0,
        tagged_name(name, a)[0] == (if split_ext(name).0.len() > 0 {
            split_ext(name).0[0]
        } else {
            '.'
        }),
{
    let (stem, ext) = split_ext(name);
    if ext is Some {
        assert(tagged_name(name, a) =~= stem + seq!['.'] + a + seq!['.'] + ext->0);
    }
}

/// Query variants of a URL are mirrored to distinct files: two URLs that
/// map to the same file without their queries map to the same file with
/// them only when the hash tags of their full addresses agree.
pub proof fn law_query_variants_apart(u1: UrlParts, u2: UrlParts, site_host: Seq<char>)
    requires
        plain_local_path(u1, site_host) == plain_local_path(u2, site_host),
        u1.query is Some,
        u2.query is Some,
        local_path(u1, site_host) == local_path(u2, site_host),
    ensures
        short_hash_of(u1.href) == short_hash_of(u2.href),
{
    let rel = plain_local_path(u1, site_host);
    let name = if file_name(rel) is Some {
        file_name(rel)->0
    } else {
        index_html()
    };
    let h1 = short_hash_of(u1.href);
    let h2 = short_hash_of(u2.href);
    let n1 = tagged_name(name, h1);
    let n2 = tagged_name(name, h2);
    lemma_tagged_first(name, h1);
    lemma_tagged_first(name, h2);
    let base = if file_name(rel) is Some {
        crate::paths::parent_str(rel)
    } else {
        rel
    };
    assert(set_file_name(rel, n1) == push(base, n1));
    assert(set_file_name(rel, n2) == push(base, n2));
    lemma_push_injective(base, n1, n2);
    lemma_tagged_injective(name, h1, h2);
}

// ---------------------------------------------------------------------------
// The law of directory URLs.
proof fn lemma_leading_slashes_before(s: Seq<char>, i: int, k: int)
    requires
        0 <= i <= k < s.len(),
        s[k] != '/',
    ensures
        i <= leading_slashes(s, i) <= k,
    decreases k - i,
{
    if s[i] == '/' {
        lemma_leading_slashes_before(s, i + 1, k);
    }
}

proof fn lemma_sanitized_index()
    ensures
        sanitized(index_html()) == index_html(),
{
    let x = index_html();
    assert(!x.contains('%')) by {
        if x.contains('%') {
            let k = choose|k: int| 0 <= k < x.len() && x[k] == '%';
            assert(x[k] != '%');
        }
    }
    assert(x.map_values(|c: char| sanitize_char(c)) =~= x);
}

proof fn lemma_push_ends_with_index(rel: Seq<char>)
    ensures
        has_suffix(push(rel, index_html()), index_html()),
{
    let x = index_html();
    let r = push(rel, x);
    assert(r.subrange(r.len() - x.len(), r.len() as int) =~= x);
}

proof fn lemma_segments_end_with_index(rel: Seq<char>, p: Seq<char>, i: int, k: int)
    requires
        0 <= i <= k,
        k + index_html().len() == p.len(),
        p.subrange(k, p.len() as int) == index_html(),
        k == 0 || p[k - 1] == '/',
    ensures
        has_suffix(push_segments(rel, p, i), index_html()),
    decreases p.len() - i,
{
    let x = index_html();
    assert forall|m: int| k <= m < p.len() implies p[m] != '/' by {
        assert(p[m] == p.subrange(k, p.len() as int)[m - k]);
    }
    let j = sep_end(p, i);
    lemma_sep_end(p, i);
    if i < k {
        assert(p[k - 1] == '/');
        assert(j <= k - 1);
        lemma_segments_end_with_index(
            if p.subrange(i, j).len() > 0 {
                push(rel, sanitized(p.subrange(i, j)))
            } else {
                rel
            },
            p,
            j + 1,
            k,
        );
    } else {
        assert(j == p.len());
        assert(p.subrange(i, j) == x);
        lemma_sanitized_index();
        lemma_push_ends_with_index(rel);
    }
}

/// Directory URLs are mirrored as `index.html`: without a query, a URL whose
/// path is empty or ends in `/` is mirrored to a file path that ends in
/// `index.html`.
pub proof fn law_directory_index(u: UrlParts, site_host: Seq<char>)
    requires
        u.query is None,
        u.path.len() == 0 || u.path.last() == '/',
    ensures
        has_suffix(local_path(u, site_host), index_html()),
{
    let p = page_path(u);
    let x = index_html();
    let k = u.path.len() as int;
    assert(p == u.path + x);
    assert(p.subrange(k, p.len() as int) =~= x);
    if k > 0 {
        assert(p[k - 1] == u.path.last());
    }
    assert(p[k] == 'i');
    lemma_leading_slashes_before(p, 0, k);
    let host = if u.host is Some {
        u.host->0
    } else {
        unknown_host()
    };
    let base = if host != site_host {
        push(external_dir(), sanitized(host))
    } else {
        Seq::empty()
    };
    lemma_segments_end_with_index(base, p, leading_slashes(p, 0), k);
    let rel = push_segments(base, p, leading_slashes(p, 0));
    if rel.len() == 0 {
        assert(x.subrange(0, x.len() as int) =~= x);
    }
}

// ---------------------------------------------------------------------------
// The law of other hosts.
/// A safe file name does not start with the separator.
proof fn lemma_name_not_rooted(x: Seq<char>)
    requires
        file_name_ok(x),
    ensures
        !has_prefix(x, "/"@),
{
    assert(!is_unsafe_name_char(x[0]));
    if has_prefix(x, "/"@) {
        reveal_strlit("/");
        assert(x[0] == x.subrange(0, 1)[0]);
    }
}

proof fn lemma_prefix_trans(a: Seq<char>, b: Seq<char>, c: Seq<char>)
    requires
        has_prefix(a, b),
        has_prefix(b, c),
    ensures
        has_prefix(a, c),
{
    assert(a.subrange(0, c.len() as int) =~= b.subrange(0, c.len() as int));
}

proof fn lemma_push_keeps_prefix(rel: Seq<char>, x: Seq<char>)
    requires
        !has_prefix(x, "/"@),
    ensures
        has_prefix(push(rel, x), rel),
{
    if x.len() > 0 && x[0] == '/' {
        assert(x.subrange(0, 1) =~= "/"@) by {
            reveal_strlit("/");
        }
    }
    let r = push(rel, x);
    assert(r.subrange(0, rel.len() as int) =~= rel);
}

proof fn lemma_segments_keep_prefix(rel: Seq<char>, p: Seq<char>, i: int)
    requires
        0 <= i <= p.len(),
    ensures
        has_prefix(push_segments(rel, p, i), rel),
    decreases p.len() - i,
{
    let j = sep_end(p, i);
    lemma_sep_end(p, i);
    let seg = p.subrange(i, j);
    let next = if seg.len() > 0 {
        push(rel, sanitized(seg))
    } else {
        rel
    };
    if seg.len() > 0 {
        lemma_sanitized_ok(seg);
        lemma_name_not_rooted(sanitized(seg));
        lemma_push_keeps_prefix(rel, sanitized(seg));
    } else {
        assert(rel.subrange(0, rel.len() as int) =~= rel);
    }
    if j < p.len() {
        lemma_segments_keep_prefix(next, p, j + 1);
        lemma_prefix_trans(push_segments(next, p, j + 1), next, rel);
    }
}

/// Other hosts are mirrored under `_external/<host>/`: without a query, a
/// URL whose host differs from the site's is mirrored to a file path that
/// starts with `_external/` and the host made file-name safe.
pub proof fn law_other_hosts_under_external(u: UrlParts, site_host: Seq<char>)
    requires
        u.query is None,
        u.host is Some,
        u.host->0 != site_host,
    ensures
        has_prefix(local_path(u, site_host), external_dir() + seq!['/'] + sanitized(u.host->0)),
{
    let host = u.host->0;
    let sh = sanitized(host);
    let base = push(external_dir(), sh);
    let want = external_dir() + seq!['/'] + sh;
    lemma_sanitized_ok(host);
    assert(!is_unsafe_name_char(sh[0]));
    assert(base == want);
    assert(has_prefix(base, want)) by {
        assert(base.subrange(0, want.len() as int) =~= want);
    }
    let p = page_path(u);
    let ls = leading_slashes(p, 0);
    lemma_leading_slashes_bounds(p, 0);
    lemma_segments_keep_prefix(base, p, ls);
    let rel = push_segments(base, p, ls);
    assert(rel.len() > 0);
}

proof fn lemma_leading_slashes_bounds(s: Seq<char>, i: int)
    requires
        0 <= i <= s.len(),
        i == 0 || s[i - 1] == '/',
    ensures
        i <= leading_slashes(s, i) <= s.len(),
        leading_slashes(s, i) == 0 || s[leading_slashes(s, i) - 1] == '/',
    decreases s.len() - i,
{
    if i < s.len() && s[i] == '/' {
        lemma_leading_slashes_bounds(s, i + 1);
    }
}

// ---------------------------------------------------------------------------
// The law of mirrored paths staying inside the output folder.
/// Every name of the list is one safe, ordinary file name.
pub open spec fn names_ok(ns: Seq<Seq<char>>) -> bool {
    forall|i: int| 0 <= i < ns.len() ==> #[trigger] file_name_ok(ns[i])
}

/// The names the segments of `s` from `i` on are mirrored to, in order.
pub open spec fn seg_names(s: Seq<char>, i: int) -> Seq<Seq<char>>
    decreases s.len() - i,
{
    let j = sep_end(s, i);
    let seg = s.subrange(i, j);
    let here: Seq<Seq<char>> = if seg.len() > 0 {
        seq![sanitized(seg)]
    } else {
        Seq::empty()
    };
    if 0 <= i <= j < s.len() {
        here + seg_names(s, j + 1)
    } else if 0 <= i <= s.len() {
        here
    } else {
        Seq::empty()
    }
}

proof fn lemma_sanitized_ok(x: Seq<char>)
    ensures
        file_name_ok(sanitized(x)),
{
    let m = decoded(x).map_values(|c: char| sanitize_char(c));
    assert forall|i: int| 0 <= i < m.len() implies !is_unsafe_name_char(#[trigger] m[i]) by {}
    let r = sanitized(x);
    if m.len() == 0 || m == crate::paths::dot() {
        assert(r =~= seq!['_']);
        assert(r != crate::paths::dot()) by {
            if r == crate::paths::dot() {
                assert(r[0] == '.');
            }
        }
        assert(r != crate::paths::dot_dot()) by {
            if r == crate::paths::dot_dot() {
                assert(r.len() == 2);
            }
        }
    } else if m == crate::paths::dot_dot() {
        assert(r =~= seq!['_', '_']);
        assert(r != crate::paths::dot()) by {
            if r == crate::paths::dot() {
                assert(r.len() == 1);
            }
        }
        assert(r != crate::paths::dot_dot()) by {
            if r == crate::paths::dot_dot() {
                assert(r[0] == '.');
            }
        }
    }
}

proof fn lemma_push_all_step(ns: Seq<Seq<char>>, x: Seq<char>)
    ensures
        push_all(Seq::empty(), ns.push(x)) == push(push_all(Seq::empty(), ns), x),
{
    assert(ns.push(x).drop_last() =~= ns);
}

proof fn lemma_segments_as_names(ns: Seq<Seq<char>>, s: Seq<char>, i: int)
    requires
        names_ok(ns),
    ensures
        push_segments(push_all(Seq::empty(), ns), s, i) == push_all(Seq::empty(), ns + seg_names(s, i)),
        names_ok(seg_names(s, i)),
    decreases s.len() - i,
{
    let j = sep_end(s, i);
    let seg = s.subrange(i, j);
    if 0 <= i <= s.len() {
        lemma_sep_end(s, i);
    }
    let here: Seq<Seq<char>> = if seg.len() > 0 {
        seq![sanitized(seg)]
    } else {
        Seq::empty()
    };
    lemma_sanitized_ok(seg);
    let next_ns = ns + here;
    if seg.len() > 0 {
        lemma_push_all_step(ns, sanitized(seg));
        assert(ns + here =~= ns.push(sanitized(seg)));
    } else {
        assert(ns + here =~= ns);
    }
    assert(names_ok(next_ns)) by {
        assert forall|k: int| 0 <= k < next_ns.len() implies #[trigger] file_name_ok(next_ns[k]) by {
            if k < ns.len() {
                assert(next_ns[k] == ns[k]);
            } else {
                assert(next_ns[k] == here[k - ns.len()]);
            }
        }
    }
    if 0 <= i <= j < s.len() {
        lemma_segments_as_names(next_ns, s, j + 1);
        let rest = seg_names(s, j + 1);
        assert(next_ns + rest =~= ns + (here + rest));
        assert(names_ok(here + rest)) by {
            assert forall|k: int| 0 <= k < (here + rest).len() implies #[trigger] file_name_ok((here + rest)[k]) by {
                if k < here.len() {
                    assert((here + rest)[k] == here[k]);
                } else {
                    assert((here + rest)[k] == rest[k - here.len()]);
                }
            }
        }
    } else if 0 <= i <= s.len() {
    } else {
        assert(ns + Seq::<Seq<char>>::empty() =~= ns);
    }
}

proof fn lemma_push_ends_with(p: Seq<char>, x: Seq<char>)
    requires
        file_name_ok(x),
    ensures
        has_suffix(push(p, x), x),
        push(p, x).len() > 0,
        p.len() == 0 ==> push(p, x) == x,
        p.len() > 0 && p.last() != '/' ==> push(p, x) == p + seq!['/'] + x,
{
    assert(!is_unsafe_name_char(x[0]));
    let r = push(p, x);
    assert(r.subrange(r.len() - x.len(), r.len() as int) =~= x);
    if p.len() == 0 {
        assert(p + x =~= x);
    }
}

proof fn lemma_push_all_ends(ns: Seq<Seq<char>>)
    requires
        names_ok(ns),
        ns.len() > 0,
    ensures
        has_suffix(push_all(Seq::empty(), ns), ns.last()),
        push_all(Seq::empty(), ns).len() > 0,
        push_all(Seq::empty(), ns).last() == ns.last().last(),
{
    assert(file_name_ok(ns[ns.len() - 1]));
    lemma_push_ends_with(push_all(Seq::empty(), ns.drop_last()), ns.last());
    let r = push_all(Seq::empty(), ns);
    let x = ns.last();
    assert(r.last() == r.subrange(r.len() - x.len(), r.len() as int)[x.len() - 1]);
}

proof fn lemma_push_all_starts(ns: Seq<Seq<char>>)
    requires
        names_ok(ns),
        ns.len() > 0,
    ensures
        has_prefix(push_all(Seq::empty(), ns), ns[0]),
    decreases ns.len(),
{
    let init = ns.drop_last();
    let x = ns.last();
    assert(file_name_ok(ns[ns.len() - 1]));
    assert(!is_unsafe_name_char(x[0]));
    lemma_push_all_step(init, x);
    assert(init.push(x) =~= ns);
    if init.len() == 0 {
        lemma_push_ends_with(Seq::empty(), x);
        assert(push_all(Seq::empty(), init) == Seq::<char>::empty());
        assert(x.subrange(0, x.len() as int) =~= x);
    } else {
        assert(names_ok(init)) by {
            assert forall|k: int| 0 <= k < init.len() implies #[trigger] file_name_ok(init[k]) by {
                assert(init[k] == ns[k]);
            }
        }
        lemma_push_all_starts(init);
        assert(!has_prefix(x, "/"@)) by {
            if has_prefix(x, "/"@) {
                reveal_strlit("/");
                assert(x[0] == x.subrange(0, 1)[0]);
            }
        }
        lemma_push_keeps_prefix(push_all(Seq::empty(), init), x);
        lemma_push_all_step(init, x);
        assert(init.push(x) =~= ns);
        assert(init[0] == ns[0]);
        lemma_prefix_trans(push_all(Seq::empty(), ns), push_all(Seq::empty(), init), init[0]);
    }
}

proof fn lemma_sep_end_extended(p: Seq<char>, x: Seq<char>, i: int)
    requires
        0 <= i <= p.len(),
    ensures
        sep_end(p + seq!['/'] + x, i) == sep_end(p, i),
    decreases p.len() - i,
{
    let q = p + seq!['/'] + x;
    if i < p.len() && p[i] != '/' {
        assert(q[i] == p[i]);
        lemma_sep_end_extended(p, x, i + 1);
    } else if i < p.len() {
        assert(q[i] == p[i]);
    } else {
        assert(q[i] == '/');
    }
}

proof fn lemma_sep_end_name(q: Seq<char>, i: int)
    requires
        0 <= i <= q.len(),
        forall|m: int| i <= m < q.len() ==> q[m] != '/',
    ensures
        sep_end(q, i) == q.len(),
{
    lemma_sep_end(q, i);
}

proof fn lemma_body_append(p: Seq<char>, x: Seq<char>, i: int)
    requires
        0 <= i <= p.len(),
        forall|m: int| 0 <= m < x.len() ==> x[m] != '/',
    ensures
        body_comps(p + seq!['/'] + x, i) == body_comps(p, i) + seg_comp(x),
    decreases p.len() - i,
{
    let q = p + seq!['/'] + x;
    lemma_sep_end_extended(p, x, i);
    lemma_sep_end(p, i);
    let j = sep_end(p, i);
    assert(q.subrange(i, j) =~= p.subrange(i, j));
    if j < p.len() {
        lemma_body_append(p, x, j + 1);
        assert(body_comps(q, i) == seg_comp(p.subrange(i, j)) + body_comps(q, j + 1));
        assert(seg_comp(p.subrange(i, j)) + (body_comps(p, j + 1) + seg_comp(x)) =~= (seg_comp(
            p.subrange(i, j),
        ) + body_comps(p, j + 1)) + seg_comp(x));
    } else {
        let s0 = (p.len() + 1) as int;
        assert forall|m: int| s0 <= m < q.len() implies q[m] != '/' by {
            assert(q[m] == x[m - s0]);
        }
        lemma_sep_end_name(q, s0);
        assert(q.subrange(s0, q.len() as int) =~= x);
        assert(body_comps(q, s0) == seg_comp(x));
    }
}

proof fn lemma_components_name(x: Seq<char>)
    requires
        file_name_ok(x),
    ensures
        components(x) == seq![Comp::Normal(x)],
{
    assert(!is_unsafe_name_char(x[0]));
    assert(!crate::paths::has_cur(x)) by {
        if crate::paths::has_cur(x) {
            if x.len() == 1 {
                assert(x =~= crate::paths::dot());
            } else {
                assert(!is_unsafe_name_char(x[1]));
            }
        }
    }
    assert forall|m: int| 0 <= m < x.len() implies x[m] != '/' by {
        assert(!is_unsafe_name_char(x[m]));
    }
    lemma_sep_end_name(x, 0);
    assert(x.subrange(0, x.len() as int) =~= x);
    assert(components(x) =~= seq![Comp::Normal(x)]);
}

/// The components of names joined by `/` are those names.
proof fn lemma_components_push_all(ns: Seq<Seq<char>>)
    requires
        names_ok(ns),
    ensures
        components(push_all(Seq::empty(), ns)) == ns.map_values(|x: Seq<char>| Comp::Normal(x)),
    decreases ns.len(),
{
    let e = Seq::<char>::empty();
    if ns.len() == 0 {
        assert(e.subrange(0, 0) =~= e);
        assert(components(e) =~= Seq::<Comp>::empty());
        assert(ns.map_values(|x: Seq<char>| Comp::Normal(x)) =~= Seq::<Comp>::empty());
    } else {
        let init = ns.drop_last();
        let x = ns.last();
        assert(file_name_ok(ns[ns.len() - 1]));
        assert(names_ok(init)) by {
            assert forall|k: int| 0 <= k < init.len() implies #[trigger] file_name_ok(init[k]) by {
                assert(init[k] == ns[k]);
            }
        }
        lemma_components_push_all(init);
        let p = push_all(e, init);
        lemma_push_ends_with(p, x);
        assert(ns.map_values(|x: Seq<char>| Comp::Normal(x)) =~= init.map_values(|x: Seq<char>| Comp::Normal(x)).push(
            Comp::Normal(x),
        ));
        if init.len() == 0 {
            assert(p == e);
            lemma_components_name(x);
            assert(init.map_values(|x: Seq<char>| Comp::Normal(x)) =~= Seq::<Comp>::empty());
        } else {
            lemma_push_all_ends(init);
            assert(file_name_ok(init[init.len() - 1]));
            assert(!is_unsafe_name_char(init.last()[init.last().len() - 1]));
            let q = p + seq!['/'] + x;
            assert(push_all(e, ns) == q);
            assert forall|m: int| 0 <= m < x.len() implies x[m] != '/' by {
                assert(!is_unsafe_name_char(x[m]));
            }
            assert(crate::paths::has_root(q) == crate::paths::has_root(p)) by {
                assert(q[0] == p[0]);
            }
            assert(crate::paths::has_cur(q) == crate::paths::has_cur(p)) by {
                assert(q[0] == p[0]);
                if p.len() > 1 {
                    assert(q[1] == p[1]);
                } else {
                    assert(q[1] == '/');
                }
            }
            let b = crate::paths::body_start(p);
            lemma_body_append(p, x, b);
            assert(seg_comp(x) =~= seq![Comp::Normal(x)]) by {
                assert(x != crate::paths::dot());
                assert(x != crate::paths::dot_dot());
            }
            let head: Seq<Comp> = if crate::paths::has_root(p) {
                seq![Comp::Root]
            } else if crate::paths::has_cur(p) {
                seq![Comp::Cur]
            } else {
                Seq::empty()
            };
            assert(components(q) =~= head + (body_comps(p, b) + seg_comp(x)));
            assert(components(q) =~= components(p).push(Comp::Normal(x)));
        }
    }
}

proof fn lemma_seg_start_name(r: Seq<char>, s: int, k: int)
    requires
        0 <= s <= k <= r.len(),
        forall|m: int| s <= m < r.len() ==> r[m] != '/',
        s == 0 || r[s - 1] == '/',
    ensures
        crate::paths::seg_start_back(r, 0, k) == s,
    decreases k - s,
{
    if k > s {
        lemma_seg_start_name(r, s, k - 1);
    }
}

/// Names joined by `/` are not trimmed at their end.
proof fn lemma_trim_joined(ns: Seq<Seq<char>>)
    requires
        names_ok(ns),
        ns.len() > 0,
    ensures
        crate::paths::trim_right(push_all(Seq::empty(), ns), 0) == push_all(Seq::empty(), ns),
        crate::paths::seg_start_back(push_all(Seq::empty(), ns), 0, push_all(Seq::empty(), ns).len() as int)
            == push_all(Seq::empty(), ns).len() - ns.last().len(),
{
    let e = Seq::<char>::empty();
    let r = push_all(e, ns);
    let init = ns.drop_last();
    let x = ns.last();
    assert(file_name_ok(ns[ns.len() - 1]));
    let p = push_all(e, init);
    lemma_push_ends_with(p, x);
    let s = r.len() - x.len();
    if init.len() == 0 {
        assert(r == x);
    } else {
        assert(names_ok(init)) by {
            assert forall|k: int| 0 <= k < init.len() implies #[trigger] file_name_ok(init[k]) by {
                assert(init[k] == ns[k]);
            }
        }
        lemma_push_all_ends(init);
        assert(file_name_ok(init[init.len() - 1]));
        assert(!is_unsafe_name_char(init.last()[init.last().len() - 1]));
        assert(r == p + seq!['/'] + x);
        assert(r[s - 1] == '/');
    }
    assert forall|m: int| s <= m < r.len() implies r[m] != '/' by {
        assert(r[m] == r.subrange(s, r.len() as int)[m - s]);
        assert(!is_unsafe_name_char(x[m - s]));
    }
    lemma_seg_start_name(r, s, r.len() as int);
    assert(r.subrange(s, r.len() as int) =~= x);
    assert(x != crate::paths::dot());
}

/// The parent of names joined by `/` is the join of all but the last.
proof fn lemma_parent_joined(ns: Seq<Seq<char>>)
    requires
        names_ok(ns),
        ns.len() > 0,
    ensures
        crate::paths::parent_str(push_all(Seq::empty(), ns)) == push_all(Seq::empty(), ns.drop_last()),
{
    let e = Seq::<char>::empty();
    let r = push_all(e, ns);
    let init = ns.drop_last();
    let x = ns.last();
    assert(file_name_ok(ns[ns.len() - 1]));
    let p = push_all(e, init);
    lemma_push_ends_with(p, x);
    lemma_push_all_starts(ns);
    assert(file_name_ok(ns[0]));
    assert(!is_unsafe_name_char(ns[0][0]));
    assert(r[0] == ns[0][0]);
    assert(!crate::paths::has_root(r));
    assert(!crate::paths::has_cur(r)) by {
        if crate::paths::has_cur(r) {
            if ns[0].len() == 1 {
                assert(ns[0] =~= crate::paths::dot());
            } else {
                assert(r[1] == ns[0][1]);
                assert(!is_unsafe_name_char(ns[0][1]));
            }
        }
    }
    assert(crate::paths::body_start(r) == 0);
    lemma_trim_joined(ns);
    if init.len() == 0 {
        assert(r == x);
        assert(crate::paths::cut_last_len(r, 0) == 0);
        assert(r.subrange(0, 0) =~= e);
        assert(p == e);
    } else {
        assert(names_ok(init)) by {
            assert forall|k: int| 0 <= k < init.len() implies #[trigger] file_name_ok(init[k]) by {
                assert(init[k] == ns[k]);
            }
        }
        lemma_push_all_ends(init);
        assert(file_name_ok(init[init.len() - 1]));
        assert(!is_unsafe_name_char(init.last()[init.last().len() - 1]));
        assert(r == p + seq!['/'] + x);
        assert(crate::paths::cut_last_len(r, 0) == p.len());
        assert(r.subrange(0, p.len() as int) =~= p);
        lemma_trim_joined(init);
    }
}

proof fn lemma_hex_ok(bytes: Seq<u8>)
    ensures
        forall|i: int| 0 <= i < hex_of(bytes).len() ==> !is_unsafe_name_char(#[trigger] hex_of(bytes)[i]),
    decreases bytes.len(),
{
    if bytes.len() > 0 {
        lemma_hex_ok(bytes.drop_last());
        let b = bytes.last() as int;
        let d1 = hex_digit(b / 16);
        let d2 = hex_digit(b % 16);
        assert(0 <= b / 16 < 16);
        assert(0 <= b % 16 < 16);
        assert(!is_unsafe_name_char(d1) && !is_unsafe_name_char(d2)) by {
            assert(48 <= d1 as int <= 57 || 97 <= d1 as int <= 102);
            assert(48 <= d2 as int <= 57 || 97 <= d2 as int <= 102);
        }
        let h = hex_of(bytes);
        let prev = hex_of(bytes.drop_last());
        assert forall|i: int| 0 <= i < h.len() implies !is_unsafe_name_char(#[trigger] h[i]) by {
            if i < prev.len() {
                assert(h[i] == prev[i]);
            } else if i == prev.len() {
                assert(h[i] == d1);
            } else {
                assert(h[i] == d2);
            }
        }
    }
}

proof fn lemma_tagged_ok(x: Seq<char>, tag: Seq<char>)
    requires
        file_name_ok(x),
        forall|i: int| 0 <= i < tag.len() ==> !is_unsafe_name_char(#[trigger] tag[i]),
    ensures
        file_name_ok(tagged_name(x, tag)),
{
    let (stem, ext) = split_ext(x);
    let d = last_dot(x, x.len() as int);
    lemma_last_dot_range(x, x.len() as int);
    let t = tagged_name(x, tag);
    if ext is Some {
        let e = ext->0;
        assert(t =~= stem + seq!['.'] + tag + seq!['.'] + e);
        assert forall|i: int| 0 <= i < t.len() implies !is_unsafe_name_char(#[trigger] t[i]) by {
            if i < stem.len() {
                assert(t[i] == x[i]);
            } else if i == stem.len() {
            } else if i < stem.len() + 1 + tag.len() {
                assert(t[i] == tag[i - stem.len() - 1]);
            } else if i == stem.len() + 1 + tag.len() {
            } else {
                assert(t[i] == x[d + 1 + (i - stem.len() - 2 - tag.len())]);
            }
        }
        assert(t.len() >= 3);
        assert(t != crate::paths::dot());
        assert(t != crate::paths::dot_dot());
    } else {
        assert(t =~= x + seq!['.'] + tag);
        assert forall|i: int| 0 <= i < t.len() implies !is_unsafe_name_char(#[trigger] t[i]) by {
            if i < x.len() {
                assert(t[i] == x[i]);
            } else if i > x.len() {
                assert(t[i] == tag[i - x.len() - 1]);
            }
        }
        assert(t != crate::paths::dot());
        assert(t != crate::paths::dot_dot()) by {
            if t == crate::paths::dot_dot() {
                assert(x.len() == 1);
                assert(x[0] == t[0]);
                assert(x =~= crate::paths::dot());
            }
        }
    }
}

proof fn lemma_last_dot_range(name: Seq<char>, k: int)
    requires
        0 <= k <= name.len(),
    ensures
        -1 <= last_dot(name, k) < k,
    decreases k,
{
    if k > 0 && name[k - 1] != '.' {
        lemma_last_dot_range(name, k - 1);
    }
}

/// Mirrored files stay inside the output folder: the path a URL is mirrored
/// to is relative and made only of ordinary names (no root, no `.` or `..`),
/// none holding a character that cannot stand in a file name.
pub proof fn law_mirror_paths_stay_inside(u: UrlParts, site_host: Seq<char>)
    ensures
        components(local_path(u, site_host)).len() > 0,
        forall|k: int|
            0 <= k < components(local_path(u, site_host)).len() ==> (#[trigger] components(
                local_path(u, site_host),
            )[k]) is Normal && file_name_ok(components(local_path(u, site_host))[k]->Normal_0),
{
    let e = Seq::<char>::empty();
    let host = if u.host is Some {
        u.host->0
    } else {
        unknown_host()
    };
    lemma_sanitized_ok(host);
    let xd = external_dir();
    assert(file_name_ok(xd)) by {
        assert(xd != crate::paths::dot()) by {
            if xd == crate::paths::dot() {
                assert(xd.len() == 1);
            }
        }
        assert(xd != crate::paths::dot_dot()) by {
            if xd == crate::paths::dot_dot() {
                assert(xd.len() == 2);
            }
        }
    }
    let base_ns: Seq<Seq<char>> = if host != site_host {
        seq![xd, sanitized(host)]
    } else {
        Seq::empty()
    };
    assert(names_ok(base_ns));
    let base = if host != site_host {
        push(xd, sanitized(host))
    } else {
        e
    };
    if host != site_host {
        lemma_push_all_step(seq![xd], sanitized(host));
        assert(seq![xd].push(sanitized(host)) =~= base_ns);
        lemma_push_all_step(Seq::<Seq<char>>::empty(), xd);
        assert(Seq::<Seq<char>>::empty().push(xd) =~= seq![xd]);
        lemma_push_ends_with(e, xd);
    }
    assert(push_all(e, base_ns) == base);
    let p = page_path(u);
    let ls = leading_slashes(p, 0);
    lemma_segments_as_names(base_ns, p, ls);
    let ns = base_ns + seg_names(p, ls);
    assert(names_ok(ns)) by {
        assert forall|k: int| 0 <= k < ns.len() implies #[trigger] file_name_ok(ns[k]) by {
            if k < base_ns.len() {
                assert(ns[k] == base_ns[k]);
            } else {
                assert(ns[k] == seg_names(p, ls)[k - base_ns.len()]);
            }
        }
    }
    let rel = push_segments(base, p, ls);
    assert(rel == push_all(e, ns));
    let idx = index_html();
    assert(file_name_ok(idx)) by {
        assert(idx != crate::paths::dot()) by {
            if idx == crate::paths::dot() {
                assert(idx.len() == 1);
            }
        }
        assert(idx != crate::paths::dot_dot()) by {
            if idx == crate::paths::dot_dot() {
                assert(idx.len() == 2);
            }
        }
    }
    let pn: Seq<Seq<char>> = if ns.len() == 0 {
        seq![idx]
    } else {
        ns
    };
    if ns.len() == 0 {
        assert(rel == e);
        lemma_push_all_step(Seq::<Seq<char>>::empty(), idx);
        assert(Seq::<Seq<char>>::empty().push(idx) =~= pn);
        lemma_push_ends_with(e, idx);
    } else {
        lemma_push_all_ends(ns);
    }
    let plain = plain_local_path(u, site_host);
    assert(plain == push_all(e, pn));
    assert(names_ok(pn));
    let fin: Seq<Seq<char>> = if u.query is Some {
        pn.drop_last().push(tagged_name(pn.last(), short_hash_of(u.href)))
    } else {
        pn
    };
    lemma_components_push_all(pn);
    if u.query is Some {
        let tag = short_hash_of(u.href);
        lemma_hex_ok(sha256(vstd::utf8::encode_utf8(u.href)).take(8));
        assert(pn.map_values(|x: Seq<char>| Comp::Normal(x)).last() == Comp::Normal(pn.last()));
        assert(file_name(plain) == Some(pn.last()));
        lemma_parent_joined(pn);
        assert(file_name_ok(pn[pn.len() - 1]));
        lemma_tagged_ok(pn.last(), tag);
        let tn = tagged_name(pn.last(), tag);
        lemma_push_all_step(pn.drop_last(), tn);
        assert(local_path(u, site_host) == push_all(e, fin));
        assert(names_ok(fin)) by {
            assert forall|k: int| 0 <= k < fin.len() implies #[trigger] file_name_ok(fin[k]) by {
                if k < pn.len() - 1 {
                    assert(fin[k] == pn[k]);
                }
            }
        }
        lemma_components_push_all(fin);
    }
    let c = components(local_path(u, site_host));
    assert(c == fin.map_values(|x: Seq<char>| Comp::Normal(x)));
    assert forall|k: int| 0 <= k < c.len() implies (#[trigger] c[k]) is Normal && file_name_ok(c[k]->Normal_0) by {
        assert(c[k] == Comp::Normal(fin[k]));
        assert(file_name_ok(fin[k]));
    }
}

} // verus!
