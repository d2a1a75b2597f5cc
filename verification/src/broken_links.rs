//! Finding local references in saved HTML and CSS files that point at no
//! file. The caller walks the folder, reads the files and checks which
//! targets exist; this module says which files are read, which references
//! are checked, where each one points and how a broken one is reported.
use vstd::prelude::*;
use crate::local_server::ext_lower;
use crate::paths::{parent_len, parent_str, push, push_path};
use crate::patterns::{attr_ref_bodies, css_url_bodies, PatternKind};
use crate::rewriter::{push_bodies, strs_view};
use crate::text::{cat, chars_of, has_prefix, str_has_prefix, string_from_chars, sub_vec};

verus! {

/// Which files are scanned: `Some(true)` for CSS, `Some(false)` for HTML,
/// `None` for the rest.
pub open spec fn scan_kind_of(path: Seq<char>) -> Option<bool> {
    if ext_lower(path) == Some("html"@) || ext_lower(path) == Some("htm"@) {
        Some(false)
    } else if ext_lower(path) == Some("css"@) {
        Some(true)
    } else {
        None
    }
}

/// Whether a file is scanned, and as CSS or as HTML.
pub fn scan_kind(path: &str) -> (r: Option<bool>)
    ensures
        r == scan_kind_of(path@),
{
    let e = crate::local_server::ext_lower_of(path);
    match e {
        Some(x) => {
            if crate::keyed::same_str(x.as_str(), "html") || crate::keyed::same_str(x.as_str(), "htm") {
                Some(false)
            } else if crate::keyed::same_str(x.as_str(), "css") {
                Some(true)
            } else {
                None
            }
        },
        None => None,
    }
}

/// The references a file holds: `url(...)` bodies in CSS; reference
/// attributes and then `url(...)` bodies in HTML.
pub open spec fn local_refs(t: Seq<char>, css: bool) -> Seq<Seq<char>> {
    if css {
        css_url_bodies(t)
    } else {
        attr_ref_bodies(t) + css_url_bodies(t)
    }
}

pub fn extract_local_refs(text: &str, css: bool) -> (r: Vec<String>)
    ensures
        strs_view(r@) == local_refs(text@, css),
{
    let t = chars_of(text);
    let mut out: Vec<String> = Vec::new();
    if !css {
        push_bodies(&mut out, PatternKind::AttrRef, t.as_slice());
    }
    push_bodies(&mut out, PatternKind::CssUrl, t.as_slice());
    assert(strs_view(out@) =~= local_refs(text@, css));
    out
}

/// References that are not local files: absolute web addresses, data,
/// mail and script links, and fragments.
pub open spec fn is_remote_ref(raw: Seq<char>) -> bool {
    ||| has_prefix(raw, "http://"@)
    ||| has_prefix(raw, "https://"@)
    ||| has_prefix(raw, "data:"@)
    ||| has_prefix(raw, "mailto:"@)
    ||| has_prefix(raw, "javascript:"@)
    ||| has_prefix(raw, "#"@)
}

/// Index of the first `?` or `#` at or after `i` (or the length).
pub open spec fn query_start(s: Seq<char>, i: int) -> int
    decreases s.len() - i,
{
    if 0 <= i < s.len() && s[i] != '?' && s[i] != '#' {
        query_start(s, i + 1)
    } else {
        i
    }
}

/// The file a local reference names: the text before any query or
/// fragment; `None` for remote references, an empty name and `/`.
pub open spec fn local_target(raw: Seq<char>) -> Option<Seq<char>> {
    let c = raw.subrange(0, query_start(raw, 0));
    if is_remote_ref(raw) || c.len() == 0 || c == "/"@ {
        None
    } else {
        Some(c)
    }
}

pub fn local_target_of(raw: &str) -> (r: Option<String>)
    ensures
        crate::urls::opt_str_view(r) == local_target(raw@),
{
    if str_has_prefix(raw, "http://") || str_has_prefix(raw, "https://") || str_has_prefix(raw, "data:")
        || str_has_prefix(raw, "mailto:") || str_has_prefix(raw, "javascript:") || str_has_prefix(raw, "#") {
        return None;
    }
    let v = chars_of(raw);
    let mut k: usize = 0;
    while k < v.len() && v[k] != '?' && v[k] != '#'
        invariant
            k <= v.len(),
            v@ == raw@,
            query_start(raw@, k as int) == query_start(raw@, 0),
        decreases v.len() - k,
    {
        k = k + 1;
    }
    let c = sub_vec(v.as_slice(), 0, k);
    let s = string_from_chars(c.as_slice());
    if c.len() == 0 || crate::keyed::same_str(s.as_str(), "/") {
        None
    } else {
        Some(s)
    }
}

/// Number of `/` characters at the start of `s` from `i` on.
pub open spec fn slash_end(s: Seq<char>, i: int) -> int
    decreases s.len() - i,
{
    if 0 <= i < s.len() && s[i] == '/' {
        slash_end(s, i + 1)
    } else {
        i
    }
}

/// `str::trim_start_matches('/')`.
pub open spec fn trim_leading_slashes(s: Seq<char>) -> Seq<char> {
    s.subrange(slash_end(s, 0), s.len() as int)
}

/// Where a local reference points: under the site root when it starts
/// with `/`, else next to the file that holds it.
pub open spec fn resolved_local(base_dir: Seq<char>, root: Seq<char>, rel: Seq<char>) -> Seq<char> {
    if has_prefix(rel, "/"@) {
        push(root, trim_leading_slashes(rel))
    } else {
        push(base_dir, trim_leading_slashes(rel))
    }
}

pub fn resolve_local(base_dir: &str, root: &str, rel: &str) -> (r: String)
    ensures
        r@ == resolved_local(base_dir@, root@, rel@),
{
    let v = chars_of(rel);
    let mut k: usize = 0;
    while k < v.len() && v[k] == '/'
        invariant
            k <= v.len(),
            v@ == rel@,
            slash_end(rel@, k as int) == slash_end(rel@, 0),
        decreases v.len() - k,
    {
        k = k + 1;
    }
    let trimmed = sub_vec(v.as_slice(), k, v.len());
    let mut buf = if str_has_prefix(rel, "/") {
        chars_of(root)
    } else {
        chars_of(base_dir)
    };
    push_path(&mut buf, trimmed.as_slice());
    string_from_chars(buf.as_slice())
}

/// The line that reports a broken reference.
pub open spec fn broken_key(rel_path: Seq<char>, target: Seq<char>) -> Seq<char> {
    rel_path + " -> "@ + target
}

/// What to check for each local reference of a file: the report line and
/// the path that must exist.
pub open spec fn link_checks_of(
    root: Seq<char>,
    path: Seq<char>,
    rel_path: Seq<char>,
    refs: Seq<Seq<char>>,
) -> Seq<(Seq<char>, Seq<char>)>
    decreases refs.len(),
{
    if refs.len() == 0 {
        Seq::empty()
    } else {
        let prev = link_checks_of(root, path, rel_path, refs.drop_last());
        match local_target(refs.last()) {
            Some(c) => prev.push(
                (broken_key(rel_path, c), resolved_local(parent_str(path), root, c)),
            ),
            None => prev,
        }
    }
}

pub open spec fn pairs_view(v: Seq<(String, String)>) -> Seq<(Seq<char>, Seq<char>)> {
    v.map_values(|p: (String, String)| (p.0@, p.1@))
}

/// The checks for one scanned file: `path` as the walk gave it, `rel_path`
/// the same path relative to the root, `text` its contents.
pub fn link_checks(root: &str, path: &str, rel_path: &str, text: &str, css: bool) -> (r: Vec<(String, String)>)
    ensures
        pairs_view(r@) == link_checks_of(root@, path@, rel_path@, local_refs(text@, css)),
{
    let refs = extract_local_refs(text, css);
    let pv = chars_of(path);
    let n = parent_len(pv.as_slice());
    let base_v = sub_vec(pv.as_slice(), 0, n);
    let base = string_from_chars(base_v.as_slice());
    let ghost rs = strs_view(refs@);
    let mut out: Vec<(String, String)> = Vec::new();
    let mut i: usize = 0;
    while i < refs.len()
        invariant
            i <= refs.len(),
            rs == strs_view(refs@),
            base@ == parent_str(path@),
            pairs_view(out@) == link_checks_of(root@, path@, rel_path@, rs.take(i as int)),
        decreases refs.len() - i,
    {
        assert(rs.take(i + 1).drop_last() =~= rs.take(i as int));
        assert(rs.take(i + 1).last() == refs@[i as int]@);
        match local_target_of(refs[i].as_str()) {
            Some(c) => {
                let a = cat(rel_path, " -> ");
                let key = cat(a.as_str(), c.as_str());
                let target = resolve_local(base.as_str(), root, c.as_str());
                let ghost prev = pairs_view(out@);
                out.push((key, target));
                assert(pairs_view(out@) =~= prev.push((key@, target@)));
            },
            None => {},
        }
        i = i + 1;
    }
    assert(rs.take(rs.len() as int) =~= rs);
    out
}

/// A reference that does not name a local file is never checked: inline
/// `data:` URIs, absolute `http://` and `https://` addresses, `mailto:` and
/// `javascript:` links and fragments have no local target, and adding one
/// to a file's references adds no check.
pub proof fn law_non_file_references_not_checked(
    root: Seq<char>,
    path: Seq<char>,
    rel_path: Seq<char>,
    refs: Seq<Seq<char>>,
    scheme: Seq<char>,
    rest: Seq<char>,
)
    requires
        scheme == "data:"@ || scheme == "http://"@ || scheme == "https://"@ || scheme == "mailto:"@
            || scheme == "javascript:"@ || scheme == "#"@,
    ensures
        local_target(scheme + rest) is None,
        link_checks_of(root, path, rel_path, refs.push(scheme + rest)) == link_checks_of(
            root,
            path,
            rel_path,
            refs,
        ),
{
    let raw = scheme + rest;
    assert(raw.subrange(0, scheme.len() as int) =~= scheme);
    assert(refs.push(raw).drop_last() =~= refs);
}

/// A relative file reference is checked: text without `:`, `?` or `#`
/// (other than `/` alone and the empty text), followed by a query or a
/// fragment or by nothing, names that text as its local target.
pub proof fn law_relative_references_checked(c: Seq<char>, tail: Seq<char>)
    requires
        c.len() > 0,
        c != "/"@,
        forall|i: int| 0 <= i < c.len() ==> #[trigger] c[i] != ':' && c[i] != '?' && c[i] != '#',
        tail.len() == 0 || tail[0] == '?' || tail[0] == '#',
    ensures
        local_target(c + tail) == Some(c),
{
    let raw = c + tail;
    lemma_query_start_at(raw, 0, c.len() as int);
    assert(raw.subrange(0, c.len() as int) =~= c);
    assert(!is_remote_ref(raw)) by {
        reveal_strlit("http://");
        reveal_strlit("https://");
        reveal_strlit("data:");
        reveal_strlit("mailto:");
        reveal_strlit("javascript:");
        reveal_strlit("#");
        lemma_not_scheme_prefix(c, tail, "http://"@, 4);
        lemma_not_scheme_prefix(c, tail, "https://"@, 5);
        lemma_not_scheme_prefix(c, tail, "data:"@, 4);
        lemma_not_scheme_prefix(c, tail, "mailto:"@, 6);
        lemma_not_scheme_prefix(c, tail, "javascript:"@, 10);
        if has_prefix(raw, "#"@) {
            assert(raw.subrange(0, 1)[0] == raw[0]);
            assert(raw[0] == c[0]);
        }
    }
}

/// Text without `:` followed by a query, a fragment or nothing does not
/// start with a scheme whose `:` stands at `colon`.
proof fn lemma_not_scheme_prefix(c: Seq<char>, tail: Seq<char>, p: Seq<char>, colon: int)
    requires
        0 <= colon < p.len(),
        p[colon] == ':',
        forall|i: int| 0 <= i <= colon ==> p[i] != '?' && p[i] != '#',
        forall|i: int| 0 <= i < c.len() ==> #[trigger] c[i] != ':',
        tail.len() == 0 || tail[0] == '?' || tail[0] == '#',
    ensures
        !has_prefix(c + tail, p),
{
    let raw = c + tail;
    if has_prefix(raw, p) {
        if c.len() > colon {
            assert(raw.subrange(0, p.len() as int)[colon] == raw[colon]);
            assert(raw[colon] == c[colon]);
        } else {
            let m = c.len() as int;
            assert(raw.subrange(0, p.len() as int)[m] == raw[m]);
            assert(raw[m] == tail[0]);
        }
    }
}

proof fn lemma_query_start_at(s: Seq<char>, i: int, k: int)
    requires
        0 <= i <= k <= s.len(),
        forall|m: int| i <= m < k ==> s[m] != '?' && s[m] != '#',
        k == s.len() || s[k] == '?' || s[k] == '#',
    ensures
        query_start(s, i) == k,
    decreases k - i,
{
    if i < k {
        lemma_query_start_at(s, i + 1, k);
    }
}

} // verus!
