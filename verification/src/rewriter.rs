//! Finding the references of an HTML or CSS document and rewriting them to
//! local relative paths.
use vstd::prelude::*;
use crate::patterns::{
    css_url_bodies, import_quoted_bodies, import_url_bodies, scan_bodies, seqs_of, PatternKind,
    pattern_fn, scan_from,
};
use crate::text::{
    append_chars, chars_of, has_infix, has_prefix, is_ws, occurs_at, lemma_ws_end, replace_all,
    replace_all_chars, skip_ws, slice_has_infix, slice_has_prefix, string_from_chars, sub_vec,
    to_owned_string, trim, trim_bounds, ws_end,
};
use crate::urls::{joined_url, url_without_fragment, UrlParts, WebUrl};

verus! {

/// One reference found in a document: the exact literal text that appeared
/// in the source (to find and replace it verbatim later) and the URL it
/// resolves to.
pub struct Reference {
    pub literal: String,
    pub resolved: WebUrl,
}

pub struct RefView {
    pub literal: Seq<char>,
    pub resolved: UrlParts,
}

impl View for Reference {
    type V = RefView;

    open spec fn view(&self) -> RefView {
        RefView { literal: self.literal@, resolved: self.resolved@ }
    }
}

pub open spec fn refs_view(v: Seq<Reference>) -> Seq<RefView> {
    v.map_values(|r: Reference| r@)
}

pub open spec fn strs_view(v: Seq<String>) -> Seq<Seq<char>> {
    v.map_values(|s: String| s@)
}

// ---------------------------------------------------------------------------
// HTML documents, through the `scraper` crate.
/// The values of attribute `attr` on the elements matching CSS selector
/// `selector`, in the order `Html::select` walks the parsed tree (the order
/// in which the `scraper` crate created the nodes), character references
/// decoded.
pub uninterp spec fn html_attr_values(html: Seq<char>, selector: Seq<char>, attr: Seq<char>) -> Seq<
    Seq<char>,
>;

/// The text content of the elements matching `selector`, in the order
/// `Html::select` walks the parsed tree.
pub uninterp spec fn html_element_texts(html: Seq<char>, selector: Seq<char>) -> Seq<Seq<char>>;

/// Calls `scraper::Html::parse_document`, `Selector::parse`, `Html::select`
/// and `Element::attr`. The contract claims only that the result is a function
/// of the document, the selector and the attribute name.
#[verifier::external_body]
fn select_attr_values(html: &str, selector: &str, attr: &str) -> (r: Vec<String>)
    ensures
        strs_view(r@) == html_attr_values(html@, selector@, attr@),
{
    let doc = scraper::Html::parse_document(html);
    match scraper::Selector::parse(selector) {
        Ok(sel) => doc.select(&sel).filter_map(|el| el.value().attr(attr)).map(|v| v.to_string()).collect(),
        Err(_) => Vec::new(),
    }
}

/// Calls `scraper::Html::parse_document`, `Selector::parse`, `Html::select`
/// and `ElementRef::text`. The contract claims only that the result is a
/// function of the document and the selector.
#[verifier::external_body]
fn select_texts(html: &str, selector: &str) -> (r: Vec<String>)
    ensures
        strs_view(r@) == html_element_texts(html@, selector@),
{
    let doc = scraper::Html::parse_document(html);
    match scraper::Selector::parse(selector) {
        Ok(sel) => doc.select(&sel).map(|el| el.text().collect::<String>()).collect(),
        Err(_) => Vec::new(),
    }
}

// ---------------------------------------------------------------------------
// Literals to references.
/// A trimmed literal worth resolving: not empty, not inline data, not a
/// fragment, not script.
pub open spec fn asset_literal_ok(t: Seq<char>) -> bool {
    t.len() > 0 && !has_prefix(t, "data:"@) && !has_prefix(t, "#"@) && !has_prefix(
        t,
        "javascript:"@,
    )
}

/// The reference an asset literal gives, resolved against `base`.
pub open spec fn asset_ref(lit: Seq<char>, base: UrlParts) -> Option<RefView> {
    let t = trim(lit);
    if asset_literal_ok(t) {
        match joined_url(base, t) {
            Some(u) => Some(RefView { literal: lit, resolved: u }),
            None => None,
        }
    } else {
        None
    }
}

/// The references of a sequence of asset literals, in order.
pub open spec fn asset_refs(lits: Seq<Seq<char>>, base: UrlParts) -> Seq<RefView>
    decreases lits.len(),
{
    if lits.len() == 0 {
        Seq::empty()
    } else {
        let r = asset_refs(lits.drop_last(), base);
        match asset_ref(lits.last(), base) {
            Some(x) => r.push(x),
            None => r,
        }
    }
}

fn push_ref(refs: &mut Vec<Reference>, literal: &str, base: &WebUrl)
    ensures
        refs_view(final(refs)@) == match asset_ref(literal@, base@) {
            Some(x) => refs_view(old(refs)@).push(x),
            None => refs_view(old(refs)@),
        },
{
    let lv = chars_of(literal);
    let (a, b) = trim_bounds(lv.as_slice());
    if a == b {
        return;
    }
    let t = sub_vec(lv.as_slice(), a, b);
    let ts = string_from_chars(t.as_slice());
    if crate::text::str_has_prefix(ts.as_str(), "data:") || crate::text::str_has_prefix(
        ts.as_str(),
        "#",
    ) || crate::text::str_has_prefix(ts.as_str(), "javascript:") {
        return;
    }
    match base.join(ts.as_str()) {
        Some(resolved) => {
            let ghost before = refs_view(refs@);
            refs.push(Reference { literal: to_owned_string(literal), resolved });
            assert(refs_view(refs@) =~= before.push(asset_ref(literal@, base@)->0));
        },
        None => {},
    }
}

fn push_refs(refs: &mut Vec<Reference>, lits: &Vec<String>, base: &WebUrl)
    ensures
        refs_view(final(refs)@) == refs_view(old(refs)@) + asset_refs(strs_view(lits@), base@),
{
    let mut i: usize = 0;
    while i < lits.len()
        invariant
            i <= lits.len(),
            refs_view(refs@) == refs_view(old(refs)@) + asset_refs(
                strs_view(lits@).take(i as int),
                base@,
            ),
        decreases lits.len() - i,
    {
        let ghost before = refs_view(refs@);
        push_ref(refs, lits[i].as_str(), base);
        assert(strs_view(lits@).take(i + 1).drop_last() =~= strs_view(lits@).take(i as int));
        assert(strs_view(lits@).take(i + 1).last() == lits@[i as int]@);
        assert(refs_view(refs@) =~= refs_view(old(refs)@) + asset_refs(
            strs_view(lits@).take(i + 1),
            base@,
        ));
        i = i + 1;
    }
    assert(strs_view(lits@).take(lits@.len() as int) =~= strs_view(lits@));
}

// ---------------------------------------------------------------------------
// srcset lists.
/// First index at or after `i` holding `,` (or the length).
pub open spec fn comma_end(s: Seq<char>, i: int) -> int
    decreases s.len() - i,
{
    if 0 <= i < s.len() && s[i] != ',' {
        comma_end(s, i + 1)
    } else {
        i
    }
}

proof fn lemma_comma_end(s: Seq<char>, i: int)
    requires
        0 <= i <= s.len(),
    ensures
        i <= comma_end(s, i) <= s.len(),
        comma_end(s, i) < s.len() ==> s[comma_end(s, i)] == ',',
    decreases s.len() - i,
{
    if i < s.len() && s[i] != ',' {
        lemma_comma_end(s, i + 1);
    }
}

/// First index at or after `i` holding whitespace (or the length).
pub open spec fn word_end(s: Seq<char>, i: int) -> int
    decreases s.len() - i,
{
    if 0 <= i < s.len() && !is_ws(s[i]) {
        word_end(s, i + 1)
    } else {
        i
    }
}

/// The first whitespace-separated word of `s[i..j]`, if any.
pub open spec fn first_word(s: Seq<char>, i: int, j: int) -> Option<Seq<char>> {
    let part = s.subrange(i, j);
    let a = ws_end(part, 0);
    if a < part.len() {
        Some(part.subrange(a, word_end(part, a)))
    } else {
        None
    }
}

/// The URL of each comma-separated `srcset` candidate from index `i` on.
pub open spec fn srcset_from(s: Seq<char>, i: int) -> Seq<Seq<char>>
    decreases s.len() - i,
{
    let j = comma_end(s, i);
    let w: Seq<Seq<char>> = if 0 <= i <= j <= s.len() {
        match first_word(s, i, j) {
            Some(x) => seq![x],
            None => Seq::empty(),
        }
    } else {
        Seq::empty()
    };
    if 0 <= i <= j < s.len() {
        w + srcset_from(s, j + 1)
    } else {
        w
    }
}

pub open spec fn srcset_candidates(s: Seq<char>) -> Seq<Seq<char>> {
    srcset_from(s, 0)
}

/// The candidate URLs of a `srcset` value: the first word of each
/// comma-separated part.
fn parse_srcset(val: &str) -> (r: Vec<String>)
    ensures
        strs_view(r@) == srcset_candidates(val@),
{
    let s = chars_of(val);
    let mut out: Vec<String> = Vec::new();
    let mut i: usize = 0;
    loop
        invariant_except_break
            i <= s.len(),
            strs_view(out@) + srcset_from(s@, i as int) == srcset_candidates(val@),
        ensures
            strs_view(out@) == srcset_candidates(val@),
        decreases s.len() - i,
    {
        let mut j = i;
        while j < s.len() && s[j] != ','
            invariant
                i <= j <= s.len(),
                comma_end(s@, j as int) == comma_end(s@, i as int),
            decreases s.len() - j,
        {
            j = j + 1;
        }
        proof {
            lemma_comma_end(s@, i as int);
        }
        let part = sub_vec(s.as_slice(), i, j);
        let a = skip_ws(part.as_slice(), 0);
        proof {
            lemma_ws_end(part@, 0);
        }
        let ghost before = strs_view(out@);
        if a < part.len() {
            let mut b = a;
            while b < part.len() && !crate::text::is_whitespace_char(part[b])
                invariant
                    a <= b <= part.len(),
                    word_end(part@, b as int) == word_end(part@, a as int),
                decreases part.len() - b,
            {
                b = b + 1;
            }
            let w = sub_vec(part.as_slice(), a, b);
            out.push(string_from_chars(w.as_slice()));
            assert(strs_view(out@) =~= before.push(first_word(s@, i as int, j as int)->0));
        } else {
            assert(strs_view(out@) =~= before);
        }
        if j < s.len() {
            assert(strs_view(out@) + srcset_from(s@, (j + 1) as int) =~= before + srcset_from(
                s@,
                i as int,
            ));
            i = j + 1;
        } else {
            assert(strs_view(out@) =~= before + srcset_from(s@, i as int));
            break;
        }
    }
    out
}

/// All candidates of a list of `srcset` values.
pub open spec fn all_srcset_candidates(vals: Seq<Seq<char>>) -> Seq<Seq<char>>
    decreases vals.len(),
{
    if vals.len() == 0 {
        Seq::empty()
    } else {
        all_srcset_candidates(vals.drop_last()) + srcset_candidates(vals.last())
    }
}

// ---------------------------------------------------------------------------
// CSS.
/// The reference literals of a CSS text: every `url(...)` body, then every
/// `@import "..."` body, then every `@import url(...)` body.
pub open spec fn css_literals(t: Seq<char>) -> Seq<Seq<char>> {
    css_url_bodies(t) + import_quoted_bodies(t) + import_url_bodies(t)
}

/// All CSS literals of a list of CSS texts.
pub open spec fn all_css_literals(vals: Seq<Seq<char>>) -> Seq<Seq<char>>
    decreases vals.len(),
{
    if vals.len() == 0 {
        Seq::empty()
    } else {
        all_css_literals(vals.drop_last()) + css_literals(vals.last())
    }
}

pub(crate) fn push_bodies(out: &mut Vec<String>, k: PatternKind, t: &[char])
    ensures
        strs_view(final(out)@) == strs_view(old(out)@) + scan_from(t@, 0, pattern_fn(k)),
{
    let bodies = scan_bodies(k, t);
    let ghost bs = seqs_of(bodies@);
    let mut i: usize = 0;
    while i < bodies.len()
        invariant
            i <= bodies.len(),
            bs == seqs_of(bodies@),
            strs_view(out@) == strs_view(old(out)@) + bs.take(i as int),
        decreases bodies.len() - i,
    {
        let ghost prev = strs_view(out@);
        let st = string_from_chars(bodies[i].as_slice());
        assert(st@ == bs[i as int]);
        out.push(st);
        assert(strs_view(out@) =~= prev.push(st@));
        assert(bs.take(i + 1) =~= bs.take(i as int).push(bs[i as int]));
        assert(strs_view(out@) =~= strs_view(old(out)@) + bs.take(i + 1));
        i = i + 1;
    }
    assert(bs.take(bs.len() as int) =~= bs);
}

/// The `url(...)` and `@import` literals of a CSS text, in that order.
fn extract_css_url_literals(css: &str) -> (r: Vec<String>)
    ensures
        strs_view(r@) == css_literals(css@),
{
    let t = chars_of(css);
    let mut out: Vec<String> = Vec::new();
    push_bodies(&mut out, PatternKind::CssUrl, t.as_slice());
    push_bodies(&mut out, PatternKind::ImportQuoted, t.as_slice());
    push_bodies(&mut out, PatternKind::ImportUrl, t.as_slice());
    assert(strs_view(out@) =~= css_literals(css@));
    out
}

/// The references of a CSS document: its `url(...)` and `@import` targets.
pub open spec fn css_refs(css: Seq<char>, base: UrlParts) -> Seq<RefView> {
    asset_refs(css_literals(css), base)
}

/// Extracts `url(...)` and `@import` references from a CSS document.
pub fn extract_css_asset_refs(css: &str, base: &WebUrl) -> (r: Vec<Reference>)
    ensures
        refs_view(r@) == css_refs(css@, base@),
{
    let lits = extract_css_url_literals(css);
    let mut refs: Vec<Reference> = Vec::new();
    push_refs(&mut refs, &lits, base);
    assert(refs_view(refs@) =~= css_refs(css@, base@));
    refs
}

fn all_css_literal_list(vals: &Vec<String>) -> (r: Vec<String>)
    ensures
        strs_view(r@) == all_css_literals(strs_view(vals@)),
{
    let mut out: Vec<String> = Vec::new();
    let mut i: usize = 0;
    while i < vals.len()
        invariant
            i <= vals.len(),
            strs_view(out@) == all_css_literals(strs_view(vals@).take(i as int)),
        decreases vals.len() - i,
    {
        let lits = extract_css_url_literals(vals[i].as_str());
        let mut j: usize = 0;
        let ghost before = strs_view(out@);
        while j < lits.len()
            invariant
                j <= lits.len(),
                strs_view(out@) == before + strs_view(lits@).take(j as int),
            decreases lits.len() - j,
        {
            let ghost prev = strs_view(out@);
            let st = to_owned_string(lits[j].as_str());
            out.push(st);
            assert(strs_view(out@) =~= prev.push(st@));
            assert(strs_view(lits@).take(j + 1) =~= strs_view(lits@).take(j as int).push(lits@[j as int]@));
            assert(strs_view(out@) =~= before + strs_view(lits@).take(j + 1));
            j = j + 1;
        }
        assert(strs_view(lits@).take(lits@.len() as int) =~= strs_view(lits@));
        assert(strs_view(vals@).take(i + 1).drop_last() =~= strs_view(vals@).take(i as int));
        i = i + 1;
    }
    assert(strs_view(vals@).take(vals@.len() as int) =~= strs_view(vals@));
    out
}

fn all_srcset_list(vals: &Vec<String>) -> (r: Vec<String>)
    ensures
        strs_view(r@) == all_srcset_candidates(strs_view(vals@)),
{
    let mut out: Vec<String> = Vec::new();
    let mut i: usize = 0;
    while i < vals.len()
        invariant
            i <= vals.len(),
            strs_view(out@) == all_srcset_candidates(strs_view(vals@).take(i as int)),
        decreases vals.len() - i,
    {
        let cands = parse_srcset(vals[i].as_str());
        let mut j: usize = 0;
        let ghost before = strs_view(out@);
        while j < cands.len()
            invariant
                j <= cands.len(),
                strs_view(out@) == before + strs_view(cands@).take(j as int),
            decreases cands.len() - j,
        {
            let ghost prev = strs_view(out@);
            let st = to_owned_string(cands[j].as_str());
            out.push(st);
            assert(strs_view(out@) =~= prev.push(st@));
            assert(strs_view(cands@).take(j + 1) =~= strs_view(cands@).take(j as int).push(cands@[j as int]@));
            assert(strs_view(out@) =~= before + strs_view(cands@).take(j + 1));
            j = j + 1;
        }
        assert(strs_view(cands@).take(cands@.len() as int) =~= strs_view(cands@));
        assert(strs_view(vals@).take(i + 1).drop_last() =~= strs_view(vals@).take(i as int));
        i = i + 1;
    }
    assert(strs_view(vals@).take(vals@.len() as int) =~= strs_view(vals@));
    out
}

// ---------------------------------------------------------------------------
// Attribute values as they stand in the source.
/// `&` written as the character reference `&amp;`, the way HTML source
/// carries it inside attribute values.
pub open spec fn amp_escaped(v: Seq<char>) -> Seq<char> {
    replace_all(v, seq!['&'], seq!['&', 'a', 'm', 'p', ';'])
}

/// The text an attribute value stood as in the source `src`: the value
/// itself where it occurs there, else its `&amp;`-escaped form where that
/// occurs, else the value.
pub open spec fn source_text(src: Seq<char>, v: Seq<char>) -> Seq<char> {
    if has_infix(src, v) {
        v
    } else if has_infix(src, amp_escaped(v)) {
        amp_escaped(v)
    } else {
        v
    }
}

/// The references with each literal replaced by the text it stood as in
/// `src`; the resolved URLs are kept.
pub open spec fn in_source(refs: Seq<RefView>, src: Seq<char>) -> Seq<RefView> {
    refs.map_values(|r: RefView| RefView { literal: source_text(src, r.literal), resolved: r.resolved })
}

/// The text the attribute value `v` stood as in the source `src` (see
/// `source_text`).
pub fn source_literal(src: &[char], v: &str) -> (r: String)
    ensures
        r@ == source_text(src@, v@),
{
    let vv = chars_of(v);
    if slice_has_infix(src, vv.as_slice()) {
        return to_owned_string(v);
    }
    let amp: Vec<char> = vec!['&'];
    let escaped_ref: Vec<char> = vec!['&', 'a', 'm', 'p', ';'];
    let esc = replace_all_chars(vv.as_slice(), amp.as_slice(), escaped_ref.as_slice());
    assert(amp@ =~= seq!['&']);
    assert(escaped_ref@ =~= seq!['&', 'a', 'm', 'p', ';']);
    if slice_has_infix(src, esc.as_slice()) {
        string_from_chars(esc.as_slice())
    } else {
        to_owned_string(v)
    }
}

/// A literal taken from an attribute value is text of the source whenever
/// the value stands there as it is or with `&` written as `&amp;`, so that
/// rewriting finds it verbatim; the resolved URLs are those of the values.
pub proof fn law_literals_found_in_source(refs: Seq<RefView>, src: Seq<char>)
    ensures
        in_source(refs, src).len() == refs.len(),
        forall|i: int|
            0 <= i < refs.len() ==> (#[trigger] in_source(refs, src)[i]).resolved == refs[i].resolved,
        forall|i: int|
            0 <= i < refs.len() && (has_infix(src, refs[i].literal) || has_infix(
                src,
                amp_escaped(refs[i].literal),
            )) ==> has_infix(src, (#[trigger] in_source(refs, src)[i]).literal),
{
}

/// Gives each reference the literal text it stood as in the source `src`.
pub fn literals_in_source(refs: &Vec<Reference>, src: &str) -> (r: Vec<Reference>)
    ensures
        refs_view(r@) == in_source(refs_view(refs@), src@),
{
    let sv = chars_of(src);
    let mut out: Vec<Reference> = Vec::new();
    let mut i: usize = 0;
    while i < refs.len()
        invariant
            i <= refs.len(),
            sv@ == src@,
            refs_view(out@) == in_source(refs_view(refs@), src@).take(i as int),
        decreases refs.len() - i,
    {
        let literal = source_literal(sv.as_slice(), refs[i].literal.as_str());
        let resolved = refs[i].resolved.duplicate();
        let ghost before = refs_view(out@);
        out.push(Reference { literal, resolved });
        assert(refs_view(out@) =~= before.push(in_source(refs_view(refs@), src@)[i as int]));
        assert(in_source(refs_view(refs@), src@).take(i + 1) =~= in_source(refs_view(refs@), src@).take(
            i as int,
        ).push(in_source(refs_view(refs@), src@)[i as int]));
        i = i + 1;
    }
    assert(in_source(refs_view(refs@), src@).take(refs.len() as int) =~= in_source(refs_view(refs@), src@));
    out
}

// ---------------------------------------------------------------------------
// HTML asset references.
/// Literals of the plain asset attributes, in the order the tags are listed:
/// `link[href]`, `script[src]`, `img[src]`, `source[src]`, `video[src]`,
/// `video[poster]`, `audio[src]`, `embed[src]`, `object[data]`, `iframe[src]`.
pub open spec fn tag_attr_literals(h: Seq<char>) -> Seq<Seq<char>> {
    html_attr_values(h, "link[href]"@, "href"@) + html_attr_values(h, "script[src]"@, "src"@)
        + html_attr_values(h, "img[src]"@, "src"@) + html_attr_values(h, "source[src]"@, "src"@)
        + html_attr_values(h, "video[src]"@, "src"@) + html_attr_values(
        h,
        "video[poster]"@,
        "poster"@,
    ) + html_attr_values(h, "audio[src]"@, "src"@) + html_attr_values(h, "embed[src]"@, "src"@)
        + html_attr_values(h, "object[data]"@, "data"@) + html_attr_values(
        h,
        "iframe[src]"@,
        "src"@,
    )
}

/// The asset references made of the values the document yields: the tag
/// attribute literals, the `srcset` values of `img` and of `source`, the
/// inline `style` attributes and the `<style>` blocks, in that order.
pub open spec fn html_refs_of(
    tag_lits: Seq<Seq<char>>,
    img_srcsets: Seq<Seq<char>>,
    source_srcsets: Seq<Seq<char>>,
    style_attrs: Seq<Seq<char>>,
    style_blocks: Seq<Seq<char>>,
    base: UrlParts,
) -> Seq<RefView> {
    asset_refs(tag_lits, base) + asset_refs(all_srcset_candidates(img_srcsets), base) + asset_refs(
        all_srcset_candidates(source_srcsets),
        base,
    ) + asset_refs(all_css_literals(style_attrs), base) + asset_refs(all_css_literals(style_blocks), base)
}

/// Every asset reference of an HTML document: tag attributes, `srcset`
/// candidates of `img` and `source`, `url()`s of inline `style` attributes
/// and of `<style>` blocks, in that order, each literal as it stands in the
/// document's source.
pub open spec fn html_asset_refs(h: Seq<char>, base: UrlParts) -> Seq<RefView> {
    in_source(
        html_refs_of(
            tag_attr_literals(h),
            html_attr_values(h, "img[srcset]"@, "srcset"@),
            html_attr_values(h, "source[srcset]"@, "srcset"@),
            html_attr_values(h, "[style]"@, "style"@),
            html_element_texts(h, "style"@),
            base,
        ),
        h,
    )
}

/// The asset references made of the values an HTML document yields (see
/// `html_refs_of`), resolved against `base`.
pub fn html_asset_refs_from(
    tag_lits: &Vec<String>,
    img_srcsets: &Vec<String>,
    source_srcsets: &Vec<String>,
    style_attrs: &Vec<String>,
    style_blocks: &Vec<String>,
    base: &WebUrl,
) -> (r: Vec<Reference>)
    ensures
        refs_view(r@) == html_refs_of(
            strs_view(tag_lits@),
            strs_view(img_srcsets@),
            strs_view(source_srcsets@),
            strs_view(style_attrs@),
            strs_view(style_blocks@),
            base@,
        ),
{
    let mut refs: Vec<Reference> = Vec::new();
    push_refs(&mut refs, tag_lits, base);
    let img_c = all_srcset_list(img_srcsets);
    push_refs(&mut refs, &img_c, base);
    let src_c = all_srcset_list(source_srcsets);
    push_refs(&mut refs, &src_c, base);
    let style_l = all_css_literal_list(style_attrs);
    push_refs(&mut refs, &style_l, base);
    let block_l = all_css_literal_list(style_blocks);
    push_refs(&mut refs, &block_l, base);
    assert(refs_view(refs@) =~= html_refs_of(
        strs_view(tag_lits@),
        strs_view(img_srcsets@),
        strs_view(source_srcsets@),
        strs_view(style_attrs@),
        strs_view(style_blocks@),
        base@,
    ));
    refs
}

fn append_values(out: &mut Vec<String>, html: &str, selector: &str, attr: &str)
    ensures
        strs_view(final(out)@) == strs_view(old(out)@) + html_attr_values(html@, selector@, attr@),
{
    let vals = select_attr_values(html, selector, attr);
    let ghost before = strs_view(out@);
    let mut i: usize = 0;
    while i < vals.len()
        invariant
            i <= vals.len(),
            strs_view(out@) == before + strs_view(vals@).take(i as int),
        decreases vals.len() - i,
    {
        let ghost prev = strs_view(out@);
        let st = to_owned_string(vals[i].as_str());
        out.push(st);
        assert(strs_view(out@) =~= prev.push(st@));
        assert(strs_view(vals@).take(i + 1) =~= strs_view(vals@).take(i as int).push(vals@[i as int]@));
        i = i + 1;
    }
    assert(strs_view(vals@).take(vals@.len() as int) =~= strs_view(vals@));
}

/// Extracts every asset reference (stylesheets, scripts, images, fonts,
/// media, frames, `srcset` entries, inline `style` `url()`s and `<style>`
/// blocks) from an HTML document.
pub fn extract_html_asset_refs(html: &str, base: &WebUrl) -> (r: Vec<Reference>)
    ensures
        refs_view(r@) == html_asset_refs(html@, base@),
{
    let mut tags: Vec<String> = Vec::new();
    append_values(&mut tags, html, "link[href]", "href");
    append_values(&mut tags, html, "script[src]", "src");
    append_values(&mut tags, html, "img[src]", "src");
    append_values(&mut tags, html, "source[src]", "src");
    append_values(&mut tags, html, "video[src]", "src");
    append_values(&mut tags, html, "video[poster]", "poster");
    append_values(&mut tags, html, "audio[src]", "src");
    append_values(&mut tags, html, "embed[src]", "src");
    append_values(&mut tags, html, "object[data]", "data");
    append_values(&mut tags, html, "iframe[src]", "src");
    assert(strs_view(tags@) =~= tag_attr_literals(html@));
    let img = select_attr_values(html, "img[srcset]", "srcset");
    let src = select_attr_values(html, "source[srcset]", "srcset");
    let styles = select_attr_values(html, "[style]", "style");
    let blocks = select_texts(html, "style");
    let refs = html_asset_refs_from(&tags, &img, &src, &styles, &blocks, base);
    literals_in_source(&refs, html)
}

// ---------------------------------------------------------------------------
// Page links.
/// The link an `<a href>` value gives: skipped when empty, a fragment,
/// `mailto:`, `tel:` or `javascript:`; otherwise resolved against `base`
/// with the fragment removed.
pub open spec fn page_link(href: Seq<char>, base: UrlParts) -> Option<RefView> {
    let t = trim(href);
    if t.len() > 0 && !has_prefix(t, "#"@) && !has_prefix(t, "mailto:"@) && !has_prefix(
        t,
        "tel:"@,
    ) && !has_prefix(t, "javascript:"@) {
        match joined_url(base, t) {
            Some(u) => Some(RefView { literal: href, resolved: url_without_fragment(u) }),
            None => None,
        }
    } else {
        None
    }
}

pub open spec fn page_links(hrefs: Seq<Seq<char>>, base: UrlParts) -> Seq<RefView>
    decreases hrefs.len(),
{
    if hrefs.len() == 0 {
        Seq::empty()
    } else {
        let r = page_links(hrefs.drop_last(), base);
        match page_link(hrefs.last(), base) {
            Some(x) => r.push(x),
            None => r,
        }
    }
}

/// The page links made of `<a href>` values, resolved against `base`.
pub fn page_links_from(hrefs: &Vec<String>, base: &WebUrl) -> (r: Vec<Reference>)
    ensures
        refs_view(r@) == page_links(strs_view(hrefs@), base@),
{
    let ghost hv = strs_view(hrefs@);
    let mut out: Vec<Reference> = Vec::new();
    let mut i: usize = 0;
    while i < hrefs.len()
        invariant
            i <= hrefs.len(),
            hv == strs_view(hrefs@),
            refs_view(out@) == page_links(hv.take(i as int), base@),
        decreases hrefs.len() - i,
    {
        let href = hrefs[i].as_str();
        let ghost before = refs_view(out@);
        assert(hv.take(i + 1).drop_last() =~= hv.take(i as int));
        assert(hv.take(i + 1).last() == href@);
        let lv = chars_of(href);
        let (a, b) = trim_bounds(lv.as_slice());
        let t = sub_vec(lv.as_slice(), a, b);
        let ts = string_from_chars(t.as_slice());
        let tsr = ts.as_str();
        if a < b && !crate::text::str_has_prefix(tsr, "#") && !crate::text::str_has_prefix(
            tsr,
            "mailto:",
        ) && !crate::text::str_has_prefix(tsr, "tel:") && !crate::text::str_has_prefix(
            tsr,
            "javascript:",
        ) {
            match base.join(tsr) {
                Some(u) => {
                    let resolved = u.without_fragment();
                    out.push(Reference { literal: to_owned_string(href), resolved });
                    assert(refs_view(out@) =~= before.push(page_link(href@, base@)->0));
                },
                None => {},
            }
        }
        i = i + 1;
    }
    assert(hv.take(hv.len() as int) =~= hv);
    out
}

/// The page links of an HTML document: its `<a href>` values resolved
/// against `base`, each literal as it stands in the document's source.
pub open spec fn html_page_links(h: Seq<char>, base: UrlParts) -> Seq<RefView> {
    in_source(page_links(html_attr_values(h, "a[href]"@, "href"@), base), h)
}

/// Extracts the `<a href>` page links of an HTML document, keeping the exact
/// literal text of each href.
pub fn extract_page_links(html: &str, base: &WebUrl) -> (r: Vec<Reference>)
    ensures
        refs_view(r@) == html_page_links(html@, base@),
{
    let hrefs = select_attr_values(html, "a[href]", "href");
    let links = page_links_from(&hrefs, base);
    literals_in_source(&links, html)
}

// ---------------------------------------------------------------------------
// Rewriting.
/// Length of the UTF-8 encoding of a string (`str::len`).
pub open spec fn byte_len(s: Seq<char>) -> nat {
    (vstd::utf8::encode_utf8(s).len() as usize) as nat
}

pub open spec fn url_paren() -> Seq<char> {
    seq!['u', 'r', 'l', '(']
}

/// The five contexts in which a literal is recognised: `"lit"`, `'lit'`,
/// `url(lit)`, `url("lit")`, `url('lit')`.
pub open spec fn context(k: int, x: Seq<char>) -> Seq<char> {
    if k == 0 {
        seq!['"'] + x + seq!['"']
    } else if k == 1 {
        seq!['\''] + x + seq!['\'']
    } else if k == 2 {
        url_paren() + x + seq![')']
    } else if k == 3 {
        url_paren() + seq!['"'] + x + seq!['"', ')']
    } else {
        url_paren() + seq!['\''] + x + seq!['\'', ')']
    }
}

/// The text after the first `k` context replacements.
pub open spec fn context_stage(c: Seq<char>, lit: Seq<char>, np: Seq<char>, k: int) -> Seq<char>
    decreases k,
{
    if k <= 0 {
        c
    } else {
        let s = context_stage(c, lit, np, k - 1);
        if has_infix(s, context(k - 1, lit)) {
            replace_all(s, context(k - 1, lit), context(k - 1, np))
        } else {
            s
        }
    }
}

/// Some context of the literal was found during the first `k` replacements.
pub open spec fn context_hit(c: Seq<char>, lit: Seq<char>, np: Seq<char>, k: int) -> bool
    decreases k,
{
    if k <= 0 {
        false
    } else {
        context_hit(c, lit, np, k - 1) || has_infix(
            context_stage(c, lit, np, k - 1),
            context(k - 1, lit),
        )
    }
}

/// One literal replaced by a new path in the contexts where it can be safely
/// identified; when none of them occurs, a blind replacement of every
/// occurrence, but only for literals longer than 3 bytes.
pub open spec fn replace_one(c: Seq<char>, lit: Seq<char>, np: Seq<char>) -> Seq<char> {
    let s = context_stage(c, lit, np, 5);
    if !context_hit(c, lit, np, 5) && byte_len(lit) > 3 {
        replace_all(s, lit, np)
    } else {
        s
    }
}

fn context_chars(k: usize, x: &[char]) -> (r: Vec<char>)
    requires
        k < 5,
    ensures
        r@ == context(k as int, x@),
        r@.len() > 0,
{
    let mut r: Vec<char> = Vec::new();
    if k >= 2 {
        r.push('u');
        r.push('r');
        r.push('l');
        r.push('(');
    }
    if k == 0 || k == 3 {
        r.push('"');
    } else if k == 1 || k == 4 {
        r.push('\'');
    }
    append_chars(&mut r, x);
    if k == 0 || k == 3 {
        r.push('"');
    } else if k == 1 || k == 4 {
        r.push('\'');
    }
    if k >= 2 {
        r.push(')');
    }
    assert(r@ =~= context(k as int, x@));
    r
}

/// Replaces a single literal reference, only where it can be identified
/// safely: in a quoted value or inside a CSS `url(...)`; falls back to a
/// blind replacement for literals longer than 3 bytes.
fn replace_one_reference(content: &[char], literal: &str, new_path: &str) -> (r: Vec<char>)
    ensures
        r@ == replace_one(content@, literal@, new_path@),
{
    let lit = chars_of(literal);
    let np = chars_of(new_path);
    let mut out = sub_vec(content, 0, content.len());
    assert(out@ =~= content@);
    let mut hit = false;
    let mut k: usize = 0;
    while k < 5
        invariant
            k <= 5,
            lit@ == literal@,
            np@ == new_path@,
            out@ == context_stage(content@, literal@, new_path@, k as int),
            hit == context_hit(content@, literal@, new_path@, k as int),
        decreases 5 - k,
    {
        let needle = context_chars(k, lit.as_slice());
        let replacement = context_chars(k, np.as_slice());
        if slice_has_infix(out.as_slice(), needle.as_slice()) {
            out = replace_all_chars(out.as_slice(), needle.as_slice(), replacement.as_slice());
            hit = true;
        }
        k = k + 1;
    }
    let blen = literal.len();
    assert(blen as int == byte_len(literal@));
    if !hit && blen > 3 {
        if lit.len() == 0 {
            assert(literal@ =~= Seq::<char>::empty());
            assert(vstd::utf8::encode_utf8(literal@) =~= Seq::<u8>::empty());
        }
        out = replace_all_chars(out.as_slice(), lit.as_slice(), np.as_slice());
    }
    out
}

/// Position before which an entry of key `key` goes in `o`: after every
/// entry whose key is at least as large (so equal keys keep their order).
pub open spec fn ins_pos(o: Seq<int>, keys: Seq<int>, key: int, p: int) -> int
    decreases o.len() - p,
{
    if 0 <= p < o.len() && 0 <= o[p] < keys.len() && keys[o[p]] >= key {
        ins_pos(o, keys, key, p + 1)
    } else {
        p
    }
}

/// Indices `0..n` in a stable order of non-increasing key.
pub open spec fn desc_order(keys: Seq<int>, n: int) -> Seq<int>
    decreases n,
{
    if n <= 0 {
        Seq::empty()
    } else {
        let o = desc_order(keys, n - 1);
        o.insert(ins_pos(o, keys, keys[n - 1], 0), n - 1)
    }
}

pub proof fn lemma_ins_pos(o: Seq<int>, keys: Seq<int>, key: int, p: int)
    requires
        0 <= p <= o.len(),
    ensures
        p <= ins_pos(o, keys, key, p) <= o.len(),
    decreases o.len() - p,
{
    if p < o.len() && 0 <= o[p] < keys.len() && keys[o[p]] >= key {
        lemma_ins_pos(o, keys, key, p + 1);
    }
}

/// The literal keys of references: their byte lengths.
pub open spec fn ref_keys(refs: Seq<RefView>) -> Seq<int> {
    refs.map_values(|r: RefView| byte_len(r.literal) as int)
}

/// The text after the references at `order` are applied in turn.
pub open spec fn apply_refs(
    c: Seq<char>,
    refs: Seq<RefView>,
    nps: Seq<Option<Seq<char>>>,
    order: Seq<int>,
) -> Seq<char>
    decreases order.len(),
{
    if order.len() == 0 {
        c
    } else {
        let s = apply_refs(c, refs, nps, order.drop_last());
        let i = order.last();
        if 0 <= i < nps.len() && i < refs.len() && nps[i] is Some {
            replace_one(s, refs[i].literal, nps[i]->0)
        } else {
            s
        }
    }
}

/// Every reference with a new path rewritten, longer literals first (so a
/// literal that is part of another is replaced after it).
pub open spec fn rewritten(c: Seq<char>, refs: Seq<RefView>, nps: Seq<Option<Seq<char>>>) -> Seq<
    char,
> {
    apply_refs(c, refs, nps, desc_order(ref_keys(refs), refs.len() as int))
}

pub open spec fn opt_strs_view(v: Seq<Option<String>>) -> Seq<Option<Seq<char>>> {
    v.map_values(|o: Option<String>| crate::urls::opt_str_view(o))
}

pub open spec fn usizes_view(v: Seq<usize>) -> Seq<int> {
    v.map_values(|x: usize| x as int)
}

/// Rewrites every literal reference in `content` (HTML or CSS text) to its
/// new path. `new_paths[i]` is the relative path the URL of `refs[i]`
/// resolves to, or `None` when the resource was not mirrored (the literal is
/// then left as is).
pub fn rewrite_references(
    content: &str,
    refs: &Vec<Reference>,
    new_paths: &Vec<Option<String>>,
) -> (r: String)
    requires
        new_paths.len() == refs.len(),
    ensures
        r@ == rewritten(content@, refs_view(refs@), opt_strs_view(new_paths@)),
{
    let ghost rv = refs_view(refs@);
    let ghost keys = ref_keys(rv);
    let mut order: Vec<usize> = Vec::new();
    let mut i: usize = 0;
    while i < refs.len()
        invariant
            i <= refs.len(),
            rv == refs_view(refs@),
            keys == ref_keys(rv),
            usizes_view(order@) == desc_order(keys, i as int),
            order@.len() == i,
            forall|m: int| 0 <= m < i ==> #[trigger] order@[m] < i,
        decreases refs.len() - i,
    {
        let key = refs[i].literal.as_str().len();
        assert(rv[i as int] == refs@[i as int]@);
        assert(key as int == keys[i as int]);
        let ghost o = usizes_view(order@);
        let mut p: usize = 0;
        while p < order.len() && refs[order[p]].literal.as_str().len() >= key
            invariant
                p <= order.len(),
                order@.len() == i,
                i < refs.len(),
                o == usizes_view(order@),
                keys == ref_keys(rv),
                rv == refs_view(refs@),
                forall|m: int| 0 <= m < i ==> #[trigger] order@[m] < i,
                ins_pos(o, keys, key as int, p as int) == ins_pos(o, keys, key as int, 0),
            decreases order.len() - p,
        {
            assert(rv[o[p as int]] == refs@[o[p as int]]@);
            assert(keys[o[p as int]] >= key);
            p = p + 1;
        }
        proof {
            if p < order.len() {
                assert(0 <= o[p as int] < keys.len());
            }
        }
        order.insert(p, i);
        assert(usizes_view(order@) =~= o.insert(p as int, i as int));
        i = i + 1;
    }
    let ghost nv = opt_strs_view(new_paths@);
    let mut out = chars_of(content);
    let mut j: usize = 0;
    while j < order.len()
        invariant
            j <= order.len(),
            order@.len() == refs.len(),
            forall|m: int| 0 <= m < order@.len() ==> #[trigger] order@[m] < refs.len(),
            new_paths.len() == refs.len(),
            rv == refs_view(refs@),
            nv == opt_strs_view(new_paths@),
            out@ == apply_refs(content@, rv, nv, usizes_view(order@).take(j as int)),
        decreases order.len() - j,
    {
        let idx = order[j];
        assert(usizes_view(order@).take(j + 1).drop_last() =~= usizes_view(order@).take(j as int));
        match &new_paths[idx] {
            Some(np) => {
                out = replace_one_reference(out.as_slice(), refs[idx].literal.as_str(), np.as_str());
            },
            None => {},
        }
        j = j + 1;
    }
    assert(usizes_view(order@).take(order@.len() as int) =~= usizes_view(order@));
    string_from_chars(out.as_slice())
}

// ---------------------------------------------------------------------------
// Laws of rewriting.
proof fn lemma_apply_refs_identity(
    c: Seq<char>,
    refs: Seq<RefView>,
    nps: Seq<Option<Seq<char>>>,
    order: Seq<int>,
)
    requires
        forall|i: int| 0 <= i < nps.len() ==> #[trigger] nps[i] is None,
    ensures
        apply_refs(c, refs, nps, order) == c,
    decreases order.len(),
{
    if order.len() > 0 {
        lemma_apply_refs_identity(c, refs, nps, order.drop_last());
    }
}

/// A reference whose resource was not mirrored is left as is: with no new
/// path for any reference, rewriting gives back the text unchanged.
pub proof fn law_rewrite_without_new_paths(
    c: Seq<char>,
    refs: Seq<RefView>,
    nps: Seq<Option<Seq<char>>>,
)
    requires
        forall|i: int| 0 <= i < nps.len() ==> #[trigger] nps[i] is None,
    ensures
        rewritten(c, refs, nps) == c,
{
    lemma_apply_refs_identity(c, refs, nps, desc_order(ref_keys(refs), refs.len() as int));
}

proof fn lemma_ins_pos_bounds(o: Seq<int>, keys: Seq<int>, key: int, p: int)
    requires
        0 <= p <= o.len(),
    ensures
        p <= ins_pos(o, keys, key, p) <= o.len(),
        forall|q: int| p <= q < ins_pos(o, keys, key, p) ==> 0 <= #[trigger] o[q] < keys.len() && keys[o[q]] >= key,
        ins_pos(o, keys, key, p) < o.len() ==> !(0 <= o[ins_pos(o, keys, key, p)] < keys.len() && keys[o[ins_pos(o, keys, key, p)]] >= key),
    decreases o.len() - p,
{
    if p < o.len() && 0 <= o[p] < keys.len() && keys[o[p]] >= key {
        lemma_ins_pos_bounds(o, keys, key, p + 1);
    }
}

/// The order in which references are applied: every index once, longer
/// literals first, and references with literals of equal length in their
/// original order.
pub proof fn law_longer_literals_first(keys: Seq<int>, n: int)
    requires
        0 <= n <= keys.len(),
    ensures
        desc_order(keys, n).len() == n,
        desc_order(keys, n).no_duplicates(),
        forall|i: int| 0 <= i < n ==> 0 <= #[trigger] desc_order(keys, n)[i] < n,
        forall|i: int| 0 <= i < n ==> desc_order(keys, n).contains(i),
        forall|a: int, b: int|
            0 <= a < b < n ==> keys[#[trigger] desc_order(keys, n)[a]] >= keys[#[trigger] desc_order(keys, n)[b]],
        forall|a: int, b: int|
            0 <= a < b < n && keys[desc_order(keys, n)[a]] == keys[desc_order(keys, n)[b]] ==> #[trigger] desc_order(keys, n)[a]
                < #[trigger] desc_order(keys, n)[b],
    decreases n,
{
    if n > 0 {
        law_longer_literals_first(keys, n - 1);
        let o = desc_order(keys, n - 1);
        let k = keys[n - 1];
        let p = ins_pos(o, keys, k, 0);
        lemma_ins_pos_bounds(o, keys, k, 0);
        let o2 = o.insert(p, n - 1);
        assert(desc_order(keys, n) == o2);
        assert forall|i: int| 0 <= i < n implies 0 <= #[trigger] o2[i] < n by {
            if i < p {
                assert(o2[i] == o[i]);
            } else if i > p {
                assert(o2[i] == o[i - 1]);
            }
        }
        assert forall|i: int| 0 <= i < n implies o2.contains(i) by {
            if i == n - 1 {
                assert(o2[p] == n - 1);
            } else {
                assert(o.contains(i));
                let j = choose|j: int| 0 <= j < o.len() && o[j] == i;
                if j < p {
                    assert(o2[j] == i);
                } else {
                    assert(o2[j + 1] == i);
                }
            }
        }
        assert forall|a: int, b: int| 0 <= a < n && 0 <= b < n && a != b implies o2[a] != o2[b] by {
            let ia = if a < p { a } else if a > p { a - 1 } else { -1 };
            let ib = if b < p { b } else if b > p { b - 1 } else { -1 };
            if a != p && b != p {
                assert(o2[a] == o[ia] && o2[b] == o[ib]);
            } else if a == p {
                assert(o2[b] == o[ib]);
            } else {
                assert(o2[a] == o[ia]);
            }
        }
        assert forall|a: int, b: int| 0 <= a < b < n implies keys[#[trigger] o2[a]] >= keys[#[trigger] o2[b]]
            && (keys[o2[a]] == keys[o2[b]] ==> o2[a] < o2[b]) by {
            if b < p {
                assert(o2[a] == o[a] && o2[b] == o[b]);
            } else if a > p {
                assert(o2[a] == o[a - 1] && o2[b] == o[b - 1]);
            } else if a == p {
                // b > p: o2[b] == o[b - 1], which comes at or after position p of o.
                assert(o2[b] == o[b - 1]);
                assert(o2[a] == n - 1);
                if p < o.len() {
                    assert(keys[o[p]] < k);
                    if b - 1 > p {
                        assert(keys[o[p]] >= keys[o[b - 1]]);
                    }
                }
            } else if b == p {
                assert(o2[a] == o[a]);
                assert(o2[b] == n - 1);
                assert(keys[o[a]] >= k);
            } else {
                assert(o2[a] == o[a] && o2[b] == o[b - 1]);
            }
        }
    }
}

// ---------------------------------------------------------------------------
// Laws of replacing one reference.
/// Text without quotes and without `(`: no context but a quoted one can be
/// told apart in it.
pub open spec fn unquoted(x: Seq<char>) -> bool {
    forall|i: int| 0 <= i < x.len() ==> #[trigger] x[i] != '\'' && x[i] != '"' && x[i] != '('
}

proof fn lemma_missing_char_no_infix(s: Seq<char>, n: Seq<char>, m: int)
    requires
        0 <= m < n.len(),
        forall|i: int| 0 <= i < s.len() ==> #[trigger] s[i] != n[m],
    ensures
        !has_infix(s, n),
{
    if has_infix(s, n) {
        let i = choose|i: int| occurs_at(s, n, i);
        assert(s.subrange(i, i + n.len())[m] == s[i + m]);
    }
}

/// Replacing a pattern that starts with a character found nowhere else
/// replaces its one occurrence.
proof fn lemma_replace_single(a: Seq<char>, n: Seq<char>, b: Seq<char>, r: Seq<char>)
    requires
        n.len() > 0,
        forall|i: int| 0 <= i < a.len() ==> #[trigger] a[i] != n[0],
        forall|i: int| 0 <= i < b.len() ==> #[trigger] b[i] != n[0],
    ensures
        replace_all(a + n + b, n, r) == a + r + b,
    decreases a.len(),
{
    let s = a + n + b;
    if a.len() == 0 {
        assert(s =~= n + b);
        assert(s.subrange(0, n.len() as int) =~= n);
        assert(s.skip(n.len() as int) =~= b);
        lemma_missing_char_no_infix(b, n, 0);
        crate::text::lemma_replace_all_absent(b, n, r);
        assert(a + r + b =~= r + b);
    } else {
        assert(s.subrange(0, n.len() as int)[0] == a[0]);
        assert(s.subrange(0, n.len() as int) != n);
        let a1 = a.skip(1);
        assert forall|i: int| 0 <= i < a1.len() implies #[trigger] a1[i] != n[0] by {
            assert(a1[i] == a[i + 1]);
        }
        lemma_replace_single(a1, n, b, r);
        assert(s.skip(1) =~= a1 + n + b);
        assert(a + r + b =~= seq![s[0]] + (a1 + r + b));
    }
}

proof fn lemma_stage_step(c: Seq<char>, lit: Seq<char>, np: Seq<char>, k: int)
    requires
        0 <= k,
    ensures
        has_infix(context_stage(c, lit, np, k), context(k, lit)) ==> context_stage(c, lit, np, k + 1)
            == replace_all(context_stage(c, lit, np, k), context(k, lit), context(k, np))
            && context_hit(c, lit, np, k + 1),
        !has_infix(context_stage(c, lit, np, k), context(k, lit)) ==> context_stage(c, lit, np, k + 1)
            == context_stage(c, lit, np, k) && context_hit(c, lit, np, k + 1) == context_hit(
            c,
            lit,
            np,
            k,
        ),
{
}

/// The text `a 'x' b` holds no `"` or `(` when none of its parts does.
proof fn lemma_quoted_unquoted(a: Seq<char>, x: Seq<char>, b: Seq<char>)
    requires
        unquoted(a),
        unquoted(x),
        unquoted(b),
    ensures
        forall|i: int|
            0 <= i < (a + seq!['\''] + x + seq!['\''] + b).len() ==> #[trigger] (a + seq!['\''] + x
                + seq!['\''] + b)[i] != '"' && (a + seq!['\''] + x + seq!['\''] + b)[i] != '(',
{
    let c = a + seq!['\''] + x + seq!['\''] + b;
    assert forall|i: int| 0 <= i < c.len() implies #[trigger] c[i] != '"' && c[i] != '(' by {
        if i < a.len() {
            assert(c[i] == a[i]);
        } else if i == a.len() || i == a.len() + 1 + x.len() {
        } else if i < a.len() + 1 + x.len() {
            assert(c[i] == x[i - a.len() - 1]);
        } else {
            assert(c[i] == b[i - a.len() - 2 - x.len()]);
        }
    }
}

/// A literal in single quotes is rewritten whatever its length: in text
/// where the only quotes are those around one occurrence of the literal
/// (and no `(` stands), that occurrence becomes the new path in single
/// quotes and the rest of the text is kept.
pub proof fn law_single_quoted_literal_rewritten(
    a: Seq<char>,
    lit: Seq<char>,
    np: Seq<char>,
    b: Seq<char>,
)
    requires
        unquoted(a),
        unquoted(lit),
        unquoted(np),
        unquoted(b),
    ensures
        replace_one(a + seq!['\''] + lit + seq!['\''] + b, lit, np) == a + seq!['\''] + np + seq![
            '\'',
        ] + b,
{
    let c = a + seq!['\''] + lit + seq!['\''] + b;
    let out = a + seq!['\''] + np + seq!['\''] + b;
    lemma_single_quote_stages(a, lit, np, b);
    lemma_quoted_unquoted(a, np, b);
    lemma_no_url_context(c, out, lit, np);
}

/// The first two stages: nothing in double quotes, then the one occurrence
/// in single quotes replaced.
proof fn lemma_single_quote_stages(a: Seq<char>, lit: Seq<char>, np: Seq<char>, b: Seq<char>)
    requires
        unquoted(a),
        unquoted(lit),
        unquoted(np),
        unquoted(b),
    ensures
        context_stage(a + seq!['\''] + lit + seq!['\''] + b, lit, np, 2) == a + seq!['\''] + np
            + seq!['\''] + b,
        context_hit(a + seq!['\''] + lit + seq!['\''] + b, lit, np, 2),
{
    let c = a + seq!['\''] + lit + seq!['\''] + b;
    let out = a + seq!['\''] + np + seq!['\''] + b;
    let n1 = context(1, lit);
    let r1 = context(1, np);
    assert(!has_infix(c, context(0, lit))) by {
        lemma_quoted_unquoted(a, lit, b);
        assert(context(0, lit)[0] == '"');
        lemma_missing_char_no_infix(c, context(0, lit), 0);
    }
    lemma_stage_step(c, lit, np, 0);
    assert(context_stage(c, lit, np, 1) == c);
    assert(c =~= a + n1 + b);
    assert(out =~= a + r1 + b);
    assert(occurs_at(c, n1, a.len() as int)) by {
        assert(c.subrange(a.len() as int, (a.len() + n1.len()) as int) =~= n1);
    }
    assert(replace_all(c, n1, r1) == out) by {
        assert forall|i: int| 0 <= i < a.len() implies #[trigger] a[i] != n1[0] by {}
        assert forall|i: int| 0 <= i < b.len() implies #[trigger] b[i] != n1[0] by {}
        lemma_replace_single(a, n1, b, r1);
    }
    lemma_stage_step(c, lit, np, 1);
}

/// With no `(` left, the `url(...)` stages change nothing.
proof fn lemma_no_url_context(c: Seq<char>, out: Seq<char>, lit: Seq<char>, np: Seq<char>)
    requires
        context_stage(c, lit, np, 2) == out,
        context_hit(c, lit, np, 2),
        forall|i: int| 0 <= i < out.len() ==> #[trigger] out[i] != '"' && out[i] != '(',
    ensures
        replace_one(c, lit, np) == out,
{
    assert(context(2, lit)[3] == '(');
    assert(context(3, lit)[3] == '(');
    assert(context(4, lit)[3] == '(');
    lemma_missing_char_no_infix(out, context(2, lit), 3);
    lemma_missing_char_no_infix(out, context(3, lit), 3);
    lemma_missing_char_no_infix(out, context(4, lit), 3);
    lemma_stage_step(c, lit, np, 2);
    lemma_stage_step(c, lit, np, 3);
    lemma_stage_step(c, lit, np, 4);
}

/// Each asset literal that resolves gives its reference in `asset_refs`.
proof fn lemma_asset_refs_member(lits: Seq<Seq<char>>, base: UrlParts, j: int)
    requires
        0 <= j < lits.len(),
        asset_ref(lits[j], base) is Some,
    ensures
        exists|i: int|
            0 <= i < asset_refs(lits, base).len() && #[trigger] asset_refs(lits, base)[i] == asset_ref(
                lits[j],
                base,
            )->0,
    decreases lits.len(),
{
    let prev = asset_refs(lits.drop_last(), base);
    if j < lits.len() - 1 {
        assert(lits.drop_last()[j] == lits[j]);
        lemma_asset_refs_member(lits.drop_last(), base, j);
        let i = choose|i: int| 0 <= i < prev.len() && #[trigger] prev[i] == asset_ref(lits[j], base)->0;
        match asset_ref(lits.last(), base) {
            Some(x) => {
                assert(asset_refs(lits, base) == prev.push(x));
                assert(asset_refs(lits, base)[i] == prev[i]);
            },
            None => {
                assert(asset_refs(lits, base) == prev);
            },
        }
    } else {
        assert(asset_refs(lits, base) == prev.push(asset_ref(lits.last(), base)->0));
        assert(asset_refs(lits, base)[prev.len() as int] == asset_ref(lits[j], base)->0);
    }
}

/// Video posters are extracted: every `poster` value of a `<video>` whose
/// trimmed text is a resolvable asset (not empty, not `data:`, a fragment
/// or `javascript:`) gives an extracted reference to the URL it resolves to.
pub proof fn law_video_posters_extracted(h: Seq<char>, base: UrlParts, j: int)
    requires
        0 <= j < html_attr_values(h, "video[poster]"@, "poster"@).len(),
        asset_literal_ok(trim(html_attr_values(h, "video[poster]"@, "poster"@)[j])),
        joined_url(base, trim(html_attr_values(h, "video[poster]"@, "poster"@)[j])) is Some,
    ensures
        exists|i: int|
            0 <= i < html_asset_refs(h, base).len() && (#[trigger] html_asset_refs(h, base)[i]).resolved
                == joined_url(base, trim(html_attr_values(h, "video[poster]"@, "poster"@)[j]))->0,
{
    let posters = html_attr_values(h, "video[poster]"@, "poster"@);
    let before = html_attr_values(h, "link[href]"@, "href"@) + html_attr_values(h, "script[src]"@, "src"@)
        + html_attr_values(h, "img[src]"@, "src"@) + html_attr_values(h, "source[src]"@, "src"@)
        + html_attr_values(h, "video[src]"@, "src"@);
    let after = html_attr_values(h, "audio[src]"@, "src"@) + html_attr_values(h, "embed[src]"@, "src"@)
        + html_attr_values(h, "object[data]"@, "data"@) + html_attr_values(h, "iframe[src]"@, "src"@);
    let tags = tag_attr_literals(h);
    assert(tags =~= before + posters + after);
    let k = before.len() + j;
    assert(tags[k] == posters[j]);
    lemma_asset_refs_member(tags, base, k);
    let first = asset_refs(tags, base);
    let i = choose|i: int| 0 <= i < first.len() && #[trigger] first[i] == asset_ref(tags[k], base)->0;
    let all = html_refs_of(
        tags,
        html_attr_values(h, "img[srcset]"@, "srcset"@),
        html_attr_values(h, "source[srcset]"@, "srcset"@),
        html_attr_values(h, "[style]"@, "style"@),
        html_element_texts(h, "style"@),
        base,
    );
    assert(all[i] == first[i]);
    assert(html_asset_refs(h, base) == in_source(all, h));
    assert(html_asset_refs(h, base)[i].resolved == all[i].resolved);
}

/// The selector and attribute of the `t`-th kind of plain asset attribute.
pub open spec fn asset_attr(t: int) -> (Seq<char>, Seq<char>) {
    if t == 0 {
        ("link[href]"@, "href"@)
    } else if t == 1 {
        ("script[src]"@, "src"@)
    } else if t == 2 {
        ("img[src]"@, "src"@)
    } else if t == 3 {
        ("source[src]"@, "src"@)
    } else if t == 4 {
        ("video[src]"@, "src"@)
    } else if t == 5 {
        ("video[poster]"@, "poster"@)
    } else if t == 6 {
        ("audio[src]"@, "src"@)
    } else if t == 7 {
        ("embed[src]"@, "src"@)
    } else if t == 8 {
        ("object[data]"@, "data"@)
    } else {
        ("iframe[src]"@, "src"@)
    }
}

/// The values of the first `t` kinds of asset attribute, kind by kind.
pub open spec fn attr_values_upto(h: Seq<char>, t: int) -> Seq<Seq<char>>
    decreases t,
{
    if t <= 0 {
        Seq::empty()
    } else {
        attr_values_upto(h, t - 1) + html_attr_values(h, asset_attr(t - 1).0, asset_attr(t - 1).1)
    }
}

proof fn lemma_upto_prefix(h: Seq<char>, t: int, u: int, k: int)
    requires
        0 <= t <= u,
        0 <= k < attr_values_upto(h, t).len(),
    ensures
        k < attr_values_upto(h, u).len(),
        attr_values_upto(h, u)[k] == attr_values_upto(h, t)[k],
    decreases u - t,
{
    if t < u {
        lemma_upto_prefix(h, t, u - 1, k);
    }
}

/// Every value of each listed asset attribute (`link[href]`,
/// `script[src]`, `img[src]`, `source[src]`, `video[src]`, `video[poster]`,
/// `audio[src]`, `embed[src]`, `object[data]`, `iframe[src]`) whose trimmed
/// text is a resolvable asset gives an extracted reference to the URL it
/// resolves to.
pub proof fn law_asset_attributes_extracted(h: Seq<char>, base: UrlParts, t: int, j: int)
    requires
        0 <= t < 10,
        0 <= j < html_attr_values(h, asset_attr(t).0, asset_attr(t).1).len(),
        asset_literal_ok(trim(html_attr_values(h, asset_attr(t).0, asset_attr(t).1)[j])),
        joined_url(base, trim(html_attr_values(h, asset_attr(t).0, asset_attr(t).1)[j])) is Some,
    ensures
        exists|i: int|
            0 <= i < html_asset_refs(h, base).len() && (#[trigger] html_asset_refs(h, base)[i]).resolved
                == joined_url(base, trim(html_attr_values(h, asset_attr(t).0, asset_attr(t).1)[j]))->0,
{
    let vals = html_attr_values(h, asset_attr(t).0, asset_attr(t).1);
    let tags = tag_attr_literals(h);
    assert(tags =~= attr_values_upto(h, 10)) by {
        reveal_with_fuel(attr_values_upto, 11);
    }
    let k = attr_values_upto(h, t).len() + j;
    assert(attr_values_upto(h, t + 1)[k] == vals[j]);
    lemma_upto_prefix(h, t + 1, 10, k);
    assert(tags[k] == vals[j]);
    lemma_asset_refs_member(tags, base, k);
    let first = asset_refs(tags, base);
    let i = choose|i: int| 0 <= i < first.len() && #[trigger] first[i] == asset_ref(tags[k], base)->0;
    let all = html_refs_of(
        tags,
        html_attr_values(h, "img[srcset]"@, "srcset"@),
        html_attr_values(h, "source[srcset]"@, "srcset"@),
        html_attr_values(h, "[style]"@, "style"@),
        html_element_texts(h, "style"@),
        base,
    );
    assert(all[i] == first[i]);
    assert(html_asset_refs(h, base) == in_source(all, h));
    assert(html_asset_refs(h, base)[i].resolved == all[i].resolved);
}

/// The text `a "x" b` holds no `'` or `(` when none of its parts does.
proof fn lemma_double_quoted_unquoted(a: Seq<char>, x: Seq<char>, b: Seq<char>)
    requires
        unquoted(a),
        unquoted(x),
        unquoted(b),
    ensures
        forall|i: int|
            0 <= i < (a + seq!['"'] + x + seq!['"'] + b).len() ==> #[trigger] (a + seq!['"'] + x + seq![
                '"',
            ] + b)[i] != '\'' && (a + seq!['"'] + x + seq!['"'] + b)[i] != '(',
{
    let c = a + seq!['"'] + x + seq!['"'] + b;
    assert forall|i: int| 0 <= i < c.len() implies #[trigger] c[i] != '\'' && c[i] != '(' by {
        if i < a.len() {
            assert(c[i] == a[i]);
        } else if i == a.len() || i == a.len() + 1 + x.len() {
        } else if i < a.len() + 1 + x.len() {
            assert(c[i] == x[i - a.len() - 1]);
        } else {
            assert(c[i] == b[i - a.len() - 2 - x.len()]);
        }
    }
}

/// A literal in double quotes is rewritten whatever its length: in text
/// where the only quotes are those around one occurrence of the literal
/// (and no `(` stands), that occurrence becomes the new path in double
/// quotes and the rest of the text is kept.
pub proof fn law_double_quoted_literal_rewritten(
    a: Seq<char>,
    lit: Seq<char>,
    np: Seq<char>,
    b: Seq<char>,
)
    requires
        unquoted(a),
        unquoted(lit),
        unquoted(np),
        unquoted(b),
    ensures
        replace_one(a + seq!['"'] + lit + seq!['"'] + b, lit, np) == a + seq!['"'] + np + seq!['"'] + b,
{
    let c = a + seq!['"'] + lit + seq!['"'] + b;
    let out = a + seq!['"'] + np + seq!['"'] + b;
    let n0 = context(0, lit);
    let r0 = context(0, np);
    assert(c =~= a + n0 + b);
    assert(out =~= a + r0 + b);
    assert(occurs_at(c, n0, a.len() as int)) by {
        assert(c.subrange(a.len() as int, (a.len() + n0.len()) as int) =~= n0);
    }
    assert(replace_all(c, n0, r0) == out) by {
        assert forall|i: int| 0 <= i < a.len() implies #[trigger] a[i] != n0[0] by {}
        assert forall|i: int| 0 <= i < b.len() implies #[trigger] b[i] != n0[0] by {}
        lemma_replace_single(a, n0, b, r0);
    }
    assert(context_stage(c, lit, np, 0) == c);
    lemma_stage_step(c, lit, np, 0);
    lemma_double_quoted_unquoted(a, np, b);
    assert(!has_infix(out, context(1, lit))) by {
        assert(context(1, lit)[0] == '\'');
        lemma_missing_char_no_infix(out, context(1, lit), 0);
    }
    lemma_stage_step(c, lit, np, 1);
    assert(context(2, lit)[3] == '(');
    assert(context(3, lit)[3] == '(');
    assert(context(4, lit)[3] == '(');
    lemma_missing_char_no_infix(out, context(2, lit), 3);
    lemma_missing_char_no_infix(out, context(3, lit), 3);
    lemma_missing_char_no_infix(out, context(4, lit), 3);
    lemma_stage_step(c, lit, np, 2);
    lemma_stage_step(c, lit, np, 3);
    lemma_stage_step(c, lit, np, 4);
}

proof fn lemma_context_holds_literal(c: Seq<char>, k: int, lit: Seq<char>)
    requires
        has_infix(c, context(k, lit)),
    ensures
        has_infix(c, lit),
{
    let ctx = context(k, lit);
    let i = choose|i: int| crate::text::occurs_at(c, ctx, i);
    let pre: Seq<char> = if k == 0 {
        seq!['"']
    } else if k == 1 {
        seq!['\'']
    } else if k == 2 {
        url_paren()
    } else if k == 3 {
        url_paren() + seq!['"']
    } else {
        url_paren() + seq!['\'']
    };
    let post: Seq<char> = if k == 0 {
        seq!['"']
    } else if k == 1 {
        seq!['\'']
    } else if k == 2 {
        seq![')']
    } else if k == 3 {
        seq!['"', ')']
    } else {
        seq!['\'', ')']
    };
    assert(ctx =~= pre + lit + post);
    let j = i + pre.len();
    assert(c.subrange(j, j + lit.len()) =~= ctx.subrange(pre.len() as int, (pre.len() + lit.len()) as int));
    assert(ctx.subrange(pre.len() as int, (pre.len() + lit.len()) as int) =~= lit);
    assert(crate::text::occurs_at(c, lit, j));
}

proof fn lemma_stage_unchanged(c: Seq<char>, lit: Seq<char>, np: Seq<char>, k: int)
    requires
        0 <= k <= 5,
        forall|m: int| 0 <= m < 5 ==> !has_infix(c, #[trigger] context(m, lit)),
    ensures
        context_stage(c, lit, np, k) == c,
        !context_hit(c, lit, np, k),
    decreases k,
{
    if k > 0 {
        lemma_stage_unchanged(c, lit, np, k - 1);
        assert(!has_infix(c, context(k - 1, lit)));
    }
}

/// A short literal (at most 3 bytes) is replaced only inside its quoted or
/// `url(...)` contexts: where none of them occurs, the text is unchanged.
pub proof fn law_short_literal_only_in_context(c: Seq<char>, lit: Seq<char>, np: Seq<char>)
    requires
        byte_len(lit) <= 3,
        forall|m: int| 0 <= m < 5 ==> !has_infix(c, #[trigger] context(m, lit)),
    ensures
        replace_one(c, lit, np) == c,
{
    lemma_stage_unchanged(c, lit, np, 5);
}

/// A reference whose literal does not occur in the text leaves the text
/// unchanged.
pub proof fn law_absent_literal_unchanged(c: Seq<char>, lit: Seq<char>, np: Seq<char>)
    requires
        !has_infix(c, lit),
    ensures
        replace_one(c, lit, np) == c,
{
    assert(lit.len() > 0) by {
        if lit.len() == 0 {
            assert(c.subrange(0, 0) =~= lit);
            assert(crate::text::occurs_at(c, lit, 0));
        }
    }
    assert forall|m: int| 0 <= m < 5 implies !has_infix(c, #[trigger] context(m, lit)) by {
        if has_infix(c, context(m, lit)) {
            lemma_context_holds_literal(c, m, lit);
        }
    }
    lemma_stage_unchanged(c, lit, np, 5);
    crate::text::lemma_replace_all_absent(c, lit, np);
}

} // verus!
