use webcloner::utils::{sanitize_decoded, tag_file_name};
use webcloner::urls::WebUrl;
use webcloner::utils::{
    hex_prefix, is_probably_css, is_probably_html, relative_path, url_to_local_path,
};

fn url(s: &str) -> WebUrl {
    WebUrl::parse(s).expect("test URL parses")
}

#[test]
fn same_host_url_mirrors_its_path() {
    let u = url("https://example.com/css/app.css");
    assert_eq!(url_to_local_path(&u, "example.com"), "css/app.css");
}

#[test]
fn other_host_goes_under_external() {
    let u = url("https://cdn.example.net/lib/x.js");
    assert_eq!(url_to_local_path(&u, "example.com"), "_external/cdn.example.net/lib/x.js");
}

#[test]
fn directory_paths_become_index_html() {
    assert_eq!(url_to_local_path(&url("https://example.com/"), "example.com"), "index.html");
    assert_eq!(url_to_local_path(&url("https://example.com/blog/"), "example.com"), "blog/index.html");
}

#[test]
fn query_is_folded_into_the_file_name() {
    let a = url_to_local_path(&url("https://example.com/style.css?v=2"), "example.com");
    let b = url_to_local_path(&url("https://example.com/style.css?v=3"), "example.com");
    assert_eq!(a, "style.7c0efc61ed496122.css");
    assert_eq!(b, "style.c3647034116efb4f.css");
    assert_ne!(a, b);
}

#[test]
fn query_on_directory_and_extensionless_names() {
    assert_eq!(
        url_to_local_path(&url("https://example.com/?q=1"), "example.com"),
        "index.2adae9772e1a55f6.html"
    );
    assert_eq!(
        url_to_local_path(&url("https://example.com/api/data?x=1"), "example.com"),
        "api/data.e8d96cd124b350ea"
    );
}

#[test]
fn segments_are_decoded_and_made_safe() {
    assert_eq!(url_to_local_path(&url("https://example.com/a%20b.html"), "example.com"), "a b.html");
    assert_eq!(url_to_local_path(&url("https://example.com/a:b*c.png"), "example.com"), "a_b_c.png");
}

#[test]
fn mirrored_paths_stay_inside_the_output_folder() {
    assert_eq!(url_to_local_path(&url("https://ex.com/%2Fetc%2Fpasswd"), "ex.com"), "_etc_passwd");
    assert_eq!(url_to_local_path(&url("https://ex.com/..%2Fsecret.txt"), "ex.com"), ".._secret.txt");
    assert_eq!(url_to_local_path(&url("https://ex.com/a/b%5Cc"), "ex.com"), "a/b_c");
    let as_text = |v: Vec<char>| v.into_iter().collect::<String>();
    assert_eq!(as_text(sanitize_decoded("..")), "__");
    assert_eq!(as_text(sanitize_decoded(".")), "_");
    assert_eq!(as_text(sanitize_decoded("")), "_");
    assert_eq!(as_text(sanitize_decoded("/etc/passwd")), "_etc_passwd");
}

#[test]
fn relative_path_between_mirrored_files() {
    assert_eq!(relative_path("index.html", "css/app.css"), "css/app.css");
    assert_eq!(relative_path("a/b/page.html", "a/c/x.png"), "../c/x.png");
    assert_eq!(relative_path("a/page.html", "a/page.html"), "page.html");
    assert_eq!(relative_path("a/b.html", "a"), ".");
    assert_eq!(relative_path("x/y/z.html", "index.html"), "../../index.html");
}

#[test]
fn html_sniffing() {
    assert!(is_probably_html(Some("text/html; charset=utf-8"), b""));
    assert!(is_probably_html(Some("application/xhtml+xml"), b""));
    assert!(!is_probably_html(Some("application/json"), b"<html>"));
    assert!(is_probably_html(None, b"  <!DOCTYPE HTML><p>x"));
    assert!(is_probably_html(Some("text/plain"), b"<HTML>"));
    assert!(!is_probably_html(Some("text/plain"), b"just text"));
    let mut late = vec![b' '; 600];
    late.extend_from_slice(b"<html>");
    assert!(!is_probably_html(None, &late));
}

#[test]
fn css_sniffing() {
    assert!(is_probably_css(Some("text/css"), "/x"));
    assert!(is_probably_css(None, "/a.css"));
    assert!(!is_probably_css(Some("text/plain"), "/a.js"));
}

#[test]
fn hex_prefix_renders_bytes() {
    assert_eq!(hex_prefix(&[0xab, 0x01, 0xff], 2), "ab01");
    assert_eq!(hex_prefix(&[0x0f], 8), "0f");
}

#[test]
fn decoded_segments_and_tags() {
    assert_eq!(sanitize_decoded("a<b>:c?*").into_iter().collect::<String>(), "a_b__c__");
    assert_eq!(tag_file_name("css/app.css", "abc"), "css/app.abc.css");
    assert_eq!(tag_file_name("api/data", "abc"), "api/data.abc");
    assert_eq!(tag_file_name("", "abc"), "index.abc.html");
    assert_eq!(tag_file_name(".hidden", "t"), ".hidden.t");
}

#[test]
fn parsing_normalises_addresses() {
    let u = url("HTTPS://Example.COM");
    assert_eq!(u.as_str(), "https://example.com/");
    assert_eq!(u.host_str(), Some("example.com"));
    assert_eq!(u.path(), "/");
    assert!(WebUrl::parse("relative/path").is_none());
}
