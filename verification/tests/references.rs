use webcloner::rewriter::{html_asset_refs_from, literals_in_source, page_links_from};
use webcloner::rewriter::{
    extract_css_asset_refs, extract_html_asset_refs, extract_page_links, rewrite_references,
    Reference,
};
use webcloner::urls::WebUrl;

fn url(s: &str) -> WebUrl {
    WebUrl::parse(s).expect("test URL parses")
}

fn literals(refs: &[Reference]) -> Vec<String> {
    refs.iter().map(|r| r.literal.clone()).collect()
}

fn targets(refs: &[Reference]) -> Vec<String> {
    refs.iter().map(|r| r.resolved.as_str().to_string()).collect()
}

#[test]
fn html_asset_refs_in_document_order_by_kind() {
    let base = url("https://example.com/dir/page.html");
    let html = r#"<html><head><link rel="stylesheet" href="css/a.css"><script src="/js/app.js"></script>
<style>body { background: url('bg.png'); }</style></head>
<body><img src="img/x.png" srcset="img/x1.png 1x, img/x2.png 2x"><a href="other.html">o</a>
<div style="background-image: url(&quot;d.png&quot;)"></div><img src="data:image/png;base64,AA"></body></html>"#;
    let refs = extract_html_asset_refs(html, &base);
    assert_eq!(
        literals(&refs),
        vec!["css/a.css", "/js/app.js", "img/x.png", "img/x1.png", "img/x2.png", "d.png", "bg.png"]
    );
    assert_eq!(
        targets(&refs),
        vec![
            "https://example.com/dir/css/a.css",
            "https://example.com/js/app.js",
            "https://example.com/dir/img/x.png",
            "https://example.com/dir/img/x1.png",
            "https://example.com/dir/img/x2.png",
            "https://example.com/dir/d.png",
            "https://example.com/dir/bg.png",
        ]
    );
}

#[test]
fn page_links_skip_fragments_and_special_schemes() {
    let base = url("https://example.com/a/index.html");
    let html = r##"<a href="#top">t</a><a href="mailto:x@y.z">m</a><a href=" b.html#s ">b</a>
<a href="tel:1">t</a><a href="javascript:void(0)">j</a><a href="">e</a><a href="/c?x=1">c</a>"##;
    let links = extract_page_links(html, &base);
    assert_eq!(literals(&links), vec![" b.html#s ", "/c?x=1"]);
    assert_eq!(targets(&links), vec!["https://example.com/a/b.html", "https://example.com/c?x=1"]);
}

#[test]
fn css_refs_urls_then_imports() {
    let base = url("https://example.com/css/site.css");
    let css = r#"@import "base.css"; @import url(theme.css); .a { background: url( "img/a.png" ) } .b { src: url(data:font/woff;base64,AA) }"#;
    let refs = extract_css_asset_refs(css, &base);
    assert_eq!(literals(&refs), vec!["theme.css", "img/a.png", "base.css", "theme.css"]);
    assert_eq!(
        targets(&refs),
        vec![
            "https://example.com/css/theme.css",
            "https://example.com/css/img/a.png",
            "https://example.com/css/base.css",
            "https://example.com/css/theme.css",
        ]
    );
}

#[test]
fn rewrite_replaces_quoted_and_url_contexts() {
    let base = url("https://example.com/");
    let html = r#"<img src="a.png"><div style="background:url(b.png)"></div><p>a.png b.png</p>"#;
    let refs = extract_html_asset_refs(html, &base);
    assert_eq!(literals(&refs), vec!["a.png", "b.png"]);
    let paths = vec![Some("img/a.png".to_string()), Some("img/b.png".to_string())];
    let out = rewrite_references(html, &refs, &paths);
    assert_eq!(out, r#"<img src="img/a.png"><div style="background:url(img/b.png)"></div><p>a.png b.png</p>"#);
}

#[test]
fn rewrite_leaves_unmirrored_references() {
    let base = url("https://example.com/");
    let html = r#"<script src="https://cdn.example.net/x.js"></script>"#;
    let refs = extract_html_asset_refs(html, &base);
    let none: Vec<Option<String>> = refs.iter().map(|_| None).collect();
    assert_eq!(rewrite_references(html, &refs, &none), html);
}

#[test]
fn rewrite_longer_literals_first() {
    let base = url("https://example.com/");
    let html = r#"<img src="a.png"><img src="a.png.bak">"#;
    let refs = extract_html_asset_refs(html, &base);
    let paths = vec![Some("x.png".to_string()), Some("y.bak".to_string())];
    assert_eq!(rewrite_references(html, &refs, &paths), r#"<img src="x.png"><img src="y.bak">"#);
}

#[test]
fn rewrite_blind_fallback_only_for_long_literals() {
    let base = url("https://example.com/");
    let html = r#"<img srcset="big.png 2x">"#;
    let refs = extract_html_asset_refs(html, &base);
    assert_eq!(literals(&refs), vec!["big.png"]);
    let paths = vec![Some("m/big.png".to_string())];
    assert_eq!(rewrite_references(html, &refs, &paths), r#"<img srcset="m/big.png 2x">"#);
    let short = r#"<img srcset="a 2x">"#;
    let refs2 = extract_html_asset_refs(short, &base);
    let paths2 = vec![Some("m/a".to_string())];
    assert_eq!(rewrite_references(short, &refs2, &paths2), short);
}

#[test]
fn references_from_given_values() {
    let base = url("https://example.com/a/");
    let strings = |v: &[&str]| v.iter().map(|s| s.to_string()).collect::<Vec<String>>();
    let refs = html_asset_refs_from(
        &strings(&["x.css", " ", "data:,a"]),
        &strings(&["i1.png 1x, i2.png 2x"]),
        &strings(&[]),
        &strings(&["background:url('bg.gif')"]),
        &strings(&["@import \"s.css\";"]),
        &base,
    );
    assert_eq!(literals(&refs), vec!["x.css", "i1.png", "i2.png", "bg.gif", "s.css"]);
    assert_eq!(targets(&refs)[4], "https://example.com/a/s.css");
    let links = page_links_from(&strings(&["../b.html#x", "#top", "tel:1"]), &base);
    assert_eq!(targets(&links), vec!["https://example.com/b.html"]);
}

#[test]
fn rewrite_ignores_literals_that_do_not_occur() {
    let base = url("https://example.com/");
    let refs = extract_html_asset_refs(r#"<img src="photo.jpg">"#, &base);
    let text = "<p>nothing to see</p>";
    assert_eq!(rewrite_references(text, &refs, &vec![Some("m/photo.jpg".to_string())]), text);
}

#[test]
fn import_pattern_edge_cases() {
    let base = url("https://example.com/");
    let css = "@import   'a.css' ;@import\"b.css\";@import url( \"c.css\" );@import  url(d.css)";
    assert_eq!(literals(&extract_css_asset_refs(css, &base)), vec!["c.css", "d.css", "a.css", "c.css", "d.css"]);
    let odd = "@import \"e.css' @import url(f)";
    assert_eq!(literals(&extract_css_asset_refs(odd, &base)), vec!["f", "e.css", "f"]);
}

#[test]
fn literals_keep_character_references() {
    let base = url("https://ex.com/");
    let refs = extract_html_asset_refs("<img src='a.png?x=1&amp;y=2'>", &base);
    assert_eq!(literals(&refs), vec!["a.png?x=1&amp;y=2"]);
    assert_eq!(targets(&refs), vec!["https://ex.com/a.png?x=1&y=2"]);
    let links = extract_page_links(r#"<a href="p.html?a=1&amp;b=2">p</a><a href="q.html?c&d">q</a>"#, &base);
    assert_eq!(literals(&links), vec!["p.html?a=1&amp;b=2", "q.html?c&d"]);
    assert_eq!(targets(&links), vec!["https://ex.com/p.html?a=1&b=2", "https://ex.com/q.html?c&d"]);
}

#[test]
fn rewriting_finds_escaped_literals() {
    let base = url("https://ex.com/");
    let html = "<img src='a.png?x=1&amp;y=2'>";
    let refs = extract_html_asset_refs(html, &base);
    let out = rewrite_references(html, &refs, &vec![Some("a.1234.png".to_string())]);
    assert_eq!(out, "<img src='a.1234.png'>");
}

#[test]
fn literals_in_source_picks_the_escaped_form() {
    let refs = vec![
        Reference { literal: "a.png?x=1&y=2".to_string(), resolved: url("https://ex.com/a.png?x=1&y=2") },
        Reference { literal: "b.png".to_string(), resolved: url("https://ex.com/b.png") },
        Reference { literal: "c&d.png".to_string(), resolved: url("https://ex.com/c&d.png") },
    ];
    let out = literals_in_source(&refs, "<img src='a.png?x=1&amp;y=2'><img src=b.png>");
    assert_eq!(literals(&out), vec!["a.png?x=1&amp;y=2", "b.png", "c&d.png"]);
    assert_eq!(targets(&out), targets(&refs));
}
