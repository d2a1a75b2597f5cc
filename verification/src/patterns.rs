//! The textual reference patterns found in CSS and HTML sources:
//!
//! * `url( <ws>* <quote>? <body> <quote>? <ws>* )` where the body is one or
//!   more characters other than `'`, `"` and `)`;
//! * `@import <ws>+ <quote> <body> <quote>` where the body is one or more
//!   characters other than quotes;
//! * `@import <ws>+ url(...)` with the `url(` tail above;
//! * `href|src|data-src|poster <ws>* = <ws>* <quote> <body> <quote>`, with the
//!   attribute name matched case-insensitively.
//!
//! Each scan returns the captured bodies of the leftmost-first,
//! non-overlapping matches, in order. `<ws>` is Unicode `White_Space`.
use vstd::prelude::*;
use crate::text::{
    has_prefix, is_quote, is_ws, lemma_ws_end, occurs_at, skip_ws, slice_occurs_at, sub_vec, ws_end,
};

verus! {

/// A match found at a position: `(body_start, body_end, match_end)`.
pub type Span = (int, int, int);

/// The executable form of a match, as a specification value.
pub open spec fn span_of(r: Option<(usize, usize, usize)>) -> Option<Span> {
    match r {
        Some((a, b, c)) => Some((a as int, b as int, c as int)),
        None => None,
    }
}

/// A match found at `i` lies within the text and ends after `i`.
pub open spec fn span_within(r: Option<(usize, usize, usize)>, i: int, len: int) -> bool {
    match r {
        Some((a, b, c)) => i <= a <= b < c <= len,
        None => true,
    }
}

/// Characters that end a `url(...)` body.
pub open spec fn is_url_stop(c: char) -> bool {
    is_quote(c) || c == ')'
}

/// First index at or after `i` holding a `url(...)` body stop (or the length).
pub open spec fn url_body_end(t: Seq<char>, i: int) -> int
    decreases t.len() - i,
{
    if 0 <= i < t.len() && !is_url_stop(t[i]) {
        url_body_end(t, i + 1)
    } else {
        i
    }
}

/// First index at or after `i` holding a quote (or the length).
pub open spec fn quote_end(t: Seq<char>, i: int) -> int
    decreases t.len() - i,
{
    if 0 <= i < t.len() && !is_quote(t[i]) {
        quote_end(t, i + 1)
    } else {
        i
    }
}

pub proof fn lemma_url_body_end(t: Seq<char>, i: int)
    requires
        0 <= i <= t.len(),
    ensures
        i <= url_body_end(t, i) <= t.len(),
        url_body_end(t, i) < t.len() ==> is_url_stop(t[url_body_end(t, i)]),
        forall|k: int| i <= k < url_body_end(t, i) ==> !is_url_stop(#[trigger] t[k]),
    decreases t.len() - i,
{
    if i < t.len() && !is_url_stop(t[i]) {
        lemma_url_body_end(t, i + 1);
    }
}

pub proof fn lemma_quote_end(t: Seq<char>, i: int)
    requires
        0 <= i <= t.len(),
    ensures
        i <= quote_end(t, i) <= t.len(),
        quote_end(t, i) < t.len() ==> is_quote(t[quote_end(t, i)]),
        forall|k: int| i <= k < quote_end(t, i) ==> !is_quote(#[trigger] t[k]),
    decreases t.len() - i,
{
    if i < t.len() && !is_quote(t[i]) {
        lemma_quote_end(t, i + 1);
    }
}

/// How a `url(...)` body ending at `e` is closed: either `)` directly, or a
/// quote, optional whitespace and `)`. Gives the end of the whole match.
pub open spec fn url_close(t: Seq<char>, e: int) -> Option<int> {
    if 0 <= e < t.len() && t[e] == ')' {
        Some(e + 1)
    } else if 0 <= e < t.len() && is_quote(t[e]) && ws_end(t, e + 1) < t.len() && t[ws_end(
        t,
        e + 1,
    )] == ')' {
        Some(ws_end(t, e + 1) + 1)
    } else {
        None
    }
}

/// The rest of a `url(` match, starting just after the `(` at `j`.
///
/// After the opening whitespace run ending at `w`:
/// * a quote at `w` opens a body that must be non-empty and properly closed;
///   failing that, the last whitespace character before the quote is itself
///   the body when the quote closes the match;
/// * `)` or the end of text at `w` leaves only the last whitespace character
///   as a possible body;
/// * any other character starts the body.
pub open spec fn url_tail(t: Seq<char>, j: int) -> Option<Span> {
    let w = ws_end(t, j);
    if w < t.len() && is_quote(t[w]) {
        let q = w + 1;
        let e = url_body_end(t, q);
        if e > q && url_close(t, e) is Some {
            Some((q, e, url_close(t, e)->0))
        } else if w > j && url_close(t, w) is Some {
            Some((w - 1, w, url_close(t, w)->0))
        } else {
            None
        }
    } else if w >= t.len() || t[w] == ')' {
        if w > j && url_close(t, w) is Some {
            Some((w - 1, w, url_close(t, w)->0))
        } else {
            None
        }
    } else {
        let e = url_body_end(t, w);
        if url_close(t, e) is Some {
            Some((w, e, url_close(t, e)->0))
        } else {
            None
        }
    }
}

pub open spec fn url_open() -> Seq<char> {
    seq!['u', 'r', 'l', '(']
}

pub open spec fn import_kw() -> Seq<char> {
    seq!['@', 'i', 'm', 'p', 'o', 'r', 't']
}

/// A `url(...)` match starting at `i`.
pub open spec fn css_url_at(t: Seq<char>, i: int) -> Option<Span> {
    if occurs_at(t, url_open(), i) {
        url_tail(t, i + 4)
    } else {
        None
    }
}

/// An `@import "..."` match starting at `i`.
pub open spec fn import_quoted_at(t: Seq<char>, i: int) -> Option<Span> {
    let j = i + 7;
    let w = ws_end(t, j);
    let q = w + 1;
    let e = quote_end(t, q);
    if occurs_at(t, import_kw(), i) && w > j && w < t.len() && is_quote(t[w]) && e > q && e
        < t.len() {
        Some((q, e, e + 1))
    } else {
        None
    }
}

/// An `@import url(...)` match starting at `i`.
pub open spec fn import_url_at(t: Seq<char>, i: int) -> Option<Span> {
    let j = i + 7;
    let w = ws_end(t, j);
    if occurs_at(t, import_kw(), i) && w > j && occurs_at(t, url_open(), w) {
        url_tail(t, w + 4)
    } else {
        None
    }
}

/// `c` equals the lowercase ASCII character `l` under Unicode simple case
/// folding.
pub open spec fn ci_eq(c: char, l: char) -> bool {
    c == l || ('a' as u32 <= l as u32 <= 'z' as u32 && c as u32 + 32 == l as u32) || (l == 's'
        && c as u32 == 0x17f) || (l == 'k' && c as u32 == 0x212a)
}

pub open spec fn ci_occurs_at(t: Seq<char>, p: Seq<char>, i: int) -> bool {
    0 <= i && i + p.len() <= t.len() && forall|k: int| 0 <= k < p.len() ==> ci_eq(t[i + k], p[k])
}

pub open spec fn kw_href() -> Seq<char> {
    seq!['h', 'r', 'e', 'f']
}

pub open spec fn kw_src() -> Seq<char> {
    seq!['s', 'r', 'c']
}

pub open spec fn kw_data_src() -> Seq<char> {
    seq!['d', 'a', 't', 'a', '-', 's', 'r', 'c']
}

pub open spec fn kw_poster() -> Seq<char> {
    seq!['p', 'o', 's', 't', 'e', 'r']
}

/// Length of the reference attribute name starting at `i` (0 if none).
pub open spec fn attr_name_len(t: Seq<char>, i: int) -> int {
    if ci_occurs_at(t, kw_href(), i) {
        4
    } else if ci_occurs_at(t, kw_src(), i) {
        3
    } else if ci_occurs_at(t, kw_data_src(), i) {
        8
    } else if ci_occurs_at(t, kw_poster(), i) {
        6
    } else {
        0
    }
}

/// A quoted reference attribute (`href="..."` and the like) starting at `i`.
pub open spec fn attr_ref_at(t: Seq<char>, i: int) -> Option<Span> {
    let a = i + attr_name_len(t, i);
    let b = ws_end(t, a);
    let c = ws_end(t, b + 1);
    let q = c + 1;
    let e = quote_end(t, q);
    if attr_name_len(t, i) > 0 && b < t.len() && t[b] == '=' && c < t.len() && is_quote(t[c])
        && e > q && e < t.len() {
        Some((q, e, e + 1))
    } else {
        None
    }
}

/// The bodies of all leftmost-first, non-overlapping matches of `m` in `t`
/// at or after `p`.
pub open spec fn scan_from(
    t: Seq<char>,
    p: int,
    m: spec_fn(Seq<char>, int) -> Option<Span>,
) -> Seq<Seq<char>>
    decreases t.len() - p,
{
    if p < 0 || p >= t.len() {
        Seq::empty()
    } else {
        match m(t, p) {
            Some((a, b, c)) => {
                if p < c <= t.len() {
                    seq![t.subrange(a, b)] + scan_from(t, c, m)
                } else {
                    scan_from(t, p + 1, m)
                }
            },
            None => scan_from(t, p + 1, m),
        }
    }
}

/// Bodies of all `url(...)` matches.
pub open spec fn css_url_bodies(t: Seq<char>) -> Seq<Seq<char>> {
    scan_from(t, 0, |t: Seq<char>, i: int| css_url_at(t, i))
}

/// Bodies of all `@import "..."` matches.
pub open spec fn import_quoted_bodies(t: Seq<char>) -> Seq<Seq<char>> {
    scan_from(t, 0, |t: Seq<char>, i: int| import_quoted_at(t, i))
}

/// Bodies of all `@import url(...)` matches.
pub open spec fn import_url_bodies(t: Seq<char>) -> Seq<Seq<char>> {
    scan_from(t, 0, |t: Seq<char>, i: int| import_url_at(t, i))
}

/// Bodies of all quoted reference attributes.
pub open spec fn attr_ref_bodies(t: Seq<char>) -> Seq<Seq<char>> {
    scan_from(t, 0, |t: Seq<char>, i: int| attr_ref_at(t, i))
}

// ---------------------------------------------------------------------------
// Executable scanners.
fn find_url_body_end(t: &[char], i: usize) -> (r: usize)
    requires
        i <= t.len(),
    ensures
        r == url_body_end(t@, i as int),
{
    let mut k = i;
    while k < t.len() && !(t[k] == '\'' || t[k] == '"' || t[k] == ')')
        invariant
            i <= k <= t.len(),
            url_body_end(t@, k as int) == url_body_end(t@, i as int),
        decreases t.len() - k,
    {
        k = k + 1;
    }
    k
}

fn find_quote_end(t: &[char], i: usize) -> (r: usize)
    requires
        i <= t.len(),
    ensures
        r == quote_end(t@, i as int),
{
    let mut k = i;
    while k < t.len() && !(t[k] == '\'' || t[k] == '"')
        invariant
            i <= k <= t.len(),
            quote_end(t@, k as int) == quote_end(t@, i as int),
        decreases t.len() - k,
    {
        k = k + 1;
    }
    k
}

fn exec_url_close(t: &[char], e: usize) -> (r: Option<usize>)
    requires
        e <= t.len(),
    ensures
        r is Some <==> url_close(t@, e as int) is Some,
        r is Some ==> r->0 == url_close(t@, e as int)->0,
        r is Some ==> e < r->0 <= t.len(),
{
    if e < t.len() && t[e] == ')' {
        return Some(e + 1);
    }
    if e < t.len() && (t[e] == '\'' || t[e] == '"') {
        let k = skip_ws(t, e + 1);
        proof {
            lemma_ws_end(t@, e + 1);
        }
        if k < t.len() && t[k] == ')' {
            return Some(k + 1);
        }
    }
    None
}

fn exec_url_tail(t: &[char], j: usize) -> (r: Option<(usize, usize, usize)>)
    requires
        j <= t.len(),
    ensures
        span_of(r) == url_tail(t@, j as int),
        span_within(r, j as int, t.len() as int),
{
    let w = skip_ws(t, j);
    proof {
        lemma_ws_end(t@, j as int);
    }
    if w < t.len() && (t[w] == '\'' || t[w] == '"') {
        let q = w + 1;
        let e = find_url_body_end(t, q);
        proof {
            lemma_url_body_end(t@, q as int);
        }
        if e > q {
            if let Some(end) = exec_url_close(t, e) {
                return Some((q, e, end));
            }
        }
        if w > j {
            if let Some(end) = exec_url_close(t, w) {
                return Some((w - 1, w, end));
            }
        }
        None
    } else if w >= t.len() || t[w] == ')' {
        if w > j {
            if let Some(end) = exec_url_close(t, w) {
                return Some((w - 1, w, end));
            }
        }
        None
    } else {
        let e = find_url_body_end(t, w);
        proof {
            lemma_url_body_end(t@, w as int);
        }
        if let Some(end) = exec_url_close(t, e) {
            return Some((w, e, end));
        }
        None
    }
}

fn url_open_chars() -> (v: Vec<char>)
    ensures
        v@ == url_open(),
{
    let v = vec!['u', 'r', 'l', '('];
    assert(v@ =~= url_open());
    v
}

fn import_kw_chars() -> (v: Vec<char>)
    ensures
        v@ == import_kw(),
{
    let v = vec!['@', 'i', 'm', 'p', 'o', 'r', 't'];
    assert(v@ =~= import_kw());
    v
}

fn exec_css_url_at(t: &[char], i: usize) -> (r: Option<(usize, usize, usize)>)
    requires
        i <= t.len(),
    ensures
        span_of(r) == css_url_at(t@, i as int),
        span_within(r, i as int, t.len() as int),
{
    let kw = url_open_chars();
    if slice_occurs_at(t, kw.as_slice(), i) {
        exec_url_tail(t, i + 4)
    } else {
        None
    }
}

fn exec_import_quoted_at(t: &[char], i: usize) -> (r: Option<(usize, usize, usize)>)
    requires
        i <= t.len(),
    ensures
        span_of(r) == import_quoted_at(t@, i as int),
        span_within(r, i as int, t.len() as int),
{
    let kw = import_kw_chars();
    if !slice_occurs_at(t, kw.as_slice(), i) {
        return None;
    }
    let j = i + 7;
    let w = skip_ws(t, j);
    proof {
        lemma_ws_end(t@, j as int);
    }
    if w > j && w < t.len() && (t[w] == '\'' || t[w] == '"') {
        let q = w + 1;
        let e = find_quote_end(t, q);
        proof {
            lemma_quote_end(t@, q as int);
        }
        if e > q && e < t.len() {
            return Some((q, e, e + 1));
        }
    }
    None
}

fn exec_import_url_at(t: &[char], i: usize) -> (r: Option<(usize, usize, usize)>)
    requires
        i <= t.len(),
    ensures
        span_of(r) == import_url_at(t@, i as int),
        span_within(r, i as int, t.len() as int),
{
    let kw = import_kw_chars();
    if !slice_occurs_at(t, kw.as_slice(), i) {
        return None;
    }
    let j = i + 7;
    let w = skip_ws(t, j);
    proof {
        lemma_ws_end(t@, j as int);
    }
    let u = url_open_chars();
    if w > j && slice_occurs_at(t, u.as_slice(), w) {
        exec_url_tail(t, w + 4)
    } else {
        None
    }
}

fn ci_char_eq(c: char, l: char) -> (b: bool)
    ensures
        b == ci_eq(c, l),
{
    let cu = c as u32;
    let lu = l as u32;
    cu == lu || ('a' as u32 <= lu && lu <= 'z' as u32 && cu + 32 == lu) || (l == 's' && cu
        == 0x17f) || (l == 'k' && cu == 0x212a)
}

fn ci_slice_occurs_at(t: &[char], p: &[char], i: usize) -> (b: bool)
    ensures
        b == ci_occurs_at(t@, p@, i as int),
{
    if i > t.len() || p.len() > t.len() - i {
        return false;
    }
    let mut k: usize = 0;
    while k < p.len()
        invariant
            i + p.len() <= t.len(),
            k <= p.len(),
            forall|m: int| 0 <= m < k ==> ci_eq(t@[i + m], p@[m]),
        decreases p.len() - k,
    {
        if !ci_char_eq(t[i + k], p[k]) {
            return false;
        }
        k = k + 1;
    }
    true
}

fn exec_attr_name_len(t: &[char], i: usize) -> (r: usize)
    ensures
        r == attr_name_len(t@, i as int),
{
    let href = vec!['h', 'r', 'e', 'f'];
    let src = vec!['s', 'r', 'c'];
    let data_src = vec!['d', 'a', 't', 'a', '-', 's', 'r', 'c'];
    let poster = vec!['p', 'o', 's', 't', 'e', 'r'];
    assert(href@ =~= kw_href());
    assert(src@ =~= kw_src());
    assert(data_src@ =~= kw_data_src());
    assert(poster@ =~= kw_poster());
    if ci_slice_occurs_at(t, href.as_slice(), i) {
        4
    } else if ci_slice_occurs_at(t, src.as_slice(), i) {
        3
    } else if ci_slice_occurs_at(t, data_src.as_slice(), i) {
        8
    } else if ci_slice_occurs_at(t, poster.as_slice(), i) {
        6
    } else {
        0
    }
}

fn exec_attr_ref_at(t: &[char], i: usize) -> (r: Option<(usize, usize, usize)>)
    requires
        i <= t.len(),
    ensures
        span_of(r) == attr_ref_at(t@, i as int),
        span_within(r, i as int, t.len() as int),
{
    let n = exec_attr_name_len(t, i);
    if n == 0 {
        return None;
    }
    let a = i + n;
    let b = skip_ws(t, a);
    proof {
        lemma_ws_end(t@, a as int);
    }
    if !(b < t.len() && t[b] == '=') {
        return None;
    }
    let c = skip_ws(t, b + 1);
    proof {
        lemma_ws_end(t@, b + 1);
    }
    if !(c < t.len() && (t[c] == '\'' || t[c] == '"')) {
        return None;
    }
    let q = c + 1;
    let e = find_quote_end(t, q);
    proof {
        lemma_quote_end(t@, q as int);
    }
    if e > q && e < t.len() {
        Some((q, e, e + 1))
    } else {
        None
    }
}

/// Which of the four patterns a scan looks for.
pub enum PatternKind {
    CssUrl,
    ImportQuoted,
    ImportUrl,
    AttrRef,
}

pub open spec fn pattern_fn(k: PatternKind) -> spec_fn(Seq<char>, int) -> Option<Span> {
    match k {
        PatternKind::CssUrl => |t: Seq<char>, i: int| css_url_at(t, i),
        PatternKind::ImportQuoted => |t: Seq<char>, i: int| import_quoted_at(t, i),
        PatternKind::ImportUrl => |t: Seq<char>, i: int| import_url_at(t, i),
        PatternKind::AttrRef => |t: Seq<char>, i: int| attr_ref_at(t, i),
    }
}

fn exec_match_at(k: &PatternKind, t: &[char], i: usize) -> (r: Option<(usize, usize, usize)>)
    requires
        i <= t.len(),
    ensures
        span_of(r) == (pattern_fn(*k))(t@, i as int),
        span_within(r, i as int, t.len() as int),
{
    match k {
        PatternKind::CssUrl => exec_css_url_at(t, i),
        PatternKind::ImportQuoted => exec_import_quoted_at(t, i),
        PatternKind::ImportUrl => exec_import_url_at(t, i),
        PatternKind::AttrRef => exec_attr_ref_at(t, i),
    }
}

/// The character sequences held by a vector of character vectors.
pub open spec fn seqs_of(v: Seq<Vec<char>>) -> Seq<Seq<char>> {
    v.map_values(|x: Vec<char>| x@)
}

/// Bodies of all matches of the given pattern in `t`, in order.
pub fn scan_bodies(k: PatternKind, t: &[char]) -> (out: Vec<Vec<char>>)
    ensures
        seqs_of(out@) == scan_from(t@, 0, pattern_fn(k)),
{
    let mut out: Vec<Vec<char>> = Vec::new();
    let mut p: usize = 0;
    while p < t.len()
        invariant
            p <= t.len(),
            seqs_of(out@) + scan_from(t@, p as int, pattern_fn(k)) == scan_from(
                t@,
                0,
                pattern_fn(k),
            ),
        decreases t.len() - p,
    {
        let r = exec_match_at(&k, t, p);
        match r {
            Some((gs, ge, end)) => {
                let body = sub_vec(t, gs, ge);
                let ghost prev = seqs_of(out@);
                let ghost bv = body@;
                out.push(body);
                assert(seqs_of(out@) =~= prev.push(t@.subrange(gs as int, ge as int)));
                assert(seqs_of(out@) + scan_from(t@, end as int, pattern_fn(k)) =~= prev + (seq![
                    t@.subrange(gs as int, ge as int),
                ] + scan_from(t@, end as int, pattern_fn(k))));
                p = end;
            },
            None => {
                p = p + 1;
            },
        }
    }
    assert(seqs_of(out@) + scan_from(t@, p as int, pattern_fn(k)) =~= seqs_of(out@));
    out
}

} // verus!
