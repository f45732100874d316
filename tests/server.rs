use file_server::handler::{
    file_response_head, listing_response, outcome_response, rejection_response, request_target,
    response_head, route, Route, Status,
};
use file_server::listing::{child_link_path, parent_path, render_listing, ListingEntry};
use file_server::mime::{content_type_for, extension, get_content_type, type_for_extension};
use file_server::request::{is_space, parse_path};
use file_server::resolve::{is_valid_path, resolve, strip_root_slash, Rejected, ResourceKind};
use file_server::url::decode_url;

fn comps(parts: &[&str]) -> Vec<Vec<u8>> {
    parts.iter().map(|p| p.as_bytes().to_vec()).collect()
}

fn entry(name: &str, is_dir: bool) -> ListingEntry {
    ListingEntry { name: name.to_string(), is_dir }
}

const PNG_HEAD: [u8; 16] = [
    0x89, 0x50, 0x4E, 0x47, 0x0D, 0x0A, 0x1A, 0x0A, 0x00, 0x00, 0x00, 0x0D, 0x49, 0x48, 0x44, 0x52,
];

#[test]
fn parse_path_takes_second_token_of_first_line() {
    assert_eq!(parse_path("GET /img/cat.png HTTP/1.1\r\nHost: x\r\n\r\n"), "/img/cat.png");
    assert_eq!(parse_path("POST /a\tb HTTP/1.1"), "/a");
    assert_eq!(parse_path("  GET   /x  "), "/x");
}

#[test]
fn parse_path_defaults_to_root() {
    assert_eq!(parse_path(""), "/");
    assert_eq!(parse_path("GET\r\n/other line"), "/");
    assert_eq!(parse_path("\nGET /x HTTP/1.1"), "/");
}

#[test]
fn parse_path_unicode_whitespace_separates() {
    assert!(is_space('\u{3000}'));
    assert!(!is_space('a'));
    assert_eq!(parse_path("GET\u{a0}/x\u{2003}HTTP/1.1"), "/x");
}

#[test]
fn decode_url_decodes_escapes() {
    assert_eq!(decode_url("/a%20b.txt"), "/a b.txt");
    assert_eq!(decode_url("/%E4%b8%AD"), "/\u{4e2d}");
    assert_eq!(decode_url("/100%"), "/100%");
    assert_eq!(decode_url("/%zz%4"), "/%zz%4");
}

#[test]
fn decode_url_is_lossy_on_invalid_utf8() {
    assert_eq!(decode_url("/%FF"), "/\u{fffd}");
}

#[test]
fn request_target_from_raw_buffer() {
    let mut buf = [0u8; 1024];
    let req = b"GET /a%20b.txt HTTP/1.1\r\nHost: localhost\r\n\r\n";
    buf[..req.len()].copy_from_slice(req);
    assert_eq!(request_target(&buf), "/a b.txt");
    assert_eq!(request_target(&[0u8; 1024]), "/");
    assert_eq!(request_target(b"GET /\xff HTTP/1.1\r\n"), "/\u{fffd}");
}

#[test]
fn favicon_is_not_found_with_empty_body() {
    match route("/favicon.ico") {
        Route::Reply(r) => assert_eq!(r, "HTTP/1.1 404 Not Found\r\n\r\n"),
        Route::Lookup(_) => panic!("favicon must be answered at once"),
    }
}

#[test]
fn other_paths_are_looked_up_relative_to_root() {
    match route("/img/cat.png") {
        Route::Lookup(p) => assert_eq!(p, "img/cat.png"),
        Route::Reply(_) => panic!("expected a lookup"),
    }
    match route("/") {
        Route::Lookup(p) => assert_eq!(p, ""),
        Route::Reply(_) => panic!("expected a lookup"),
    }
    match route("/favicon.icon") {
        Route::Lookup(p) => assert_eq!(p, "favicon.icon"),
        Route::Reply(_) => panic!("expected a lookup"),
    }
}

#[test]
fn strip_root_slash_removes_one_slash() {
    assert_eq!(strip_root_slash("/a/b"), "a/b");
    assert_eq!(strip_root_slash("//etc"), "/etc");
    assert_eq!(strip_root_slash("x"), "x");
    assert_eq!(strip_root_slash(""), "");
}

#[test]
fn containment_inside_root() {
    let root = comps(&["/", "srv", "www"]);
    assert!(is_valid_path(&root, &comps(&["/", "srv", "www"])));
    assert!(is_valid_path(&root, &comps(&["/", "srv", "www", "img", "cat.png"])));
}

#[test]
fn containment_outside_root() {
    let root = comps(&["/", "srv", "www"]);
    assert!(!is_valid_path(&root, &comps(&["/", "etc", "passwd"])));
    assert!(!is_valid_path(&root, &comps(&["/", "srv"])));
}

#[test]
fn sibling_with_same_depth_is_rejected() {
    let root = comps(&["/", "srv", "www"]);
    assert!(!is_valid_path(&root, &comps(&["/", "srv", "www2"])));
    assert!(!is_valid_path(&root, &comps(&["/", "srv", "other", "deep", "file"])));
    assert_eq!(
        resolve(&root, Some(&comps(&["/", "srv", "wwx"])), true),
        Err(Rejected::Forbidden)
    );
}

#[test]
fn resolve_outcomes() {
    let root = comps(&["/", "srv", "www"]);
    assert_eq!(resolve(&root, None, false), Err(Rejected::NotFound));
    assert_eq!(resolve(&root, Some(&comps(&["/", "etc", "passwd"])), false), Err(Rejected::Forbidden));
    assert_eq!(resolve(&root, Some(&root), true), Ok(ResourceKind::Directory));
    assert_eq!(
        resolve(&root, Some(&comps(&["/", "srv", "www", "index.html"])), false),
        Ok(ResourceKind::File)
    );
}

#[test]
fn forbidden_response_text() {
    assert_eq!(
        rejection_response(Rejected::Forbidden),
        "HTTP/1.1 403 Forbidden\r\n\r\nBacktracking not allowed."
    );
}

#[test]
fn not_found_response_text() {
    assert_eq!(rejection_response(Rejected::NotFound), "HTTP/1.1 404 Not Found\r\n\r\nFile not found.");
}

#[test]
fn response_heads() {
    assert_eq!(
        response_head(Status::Success, Some("text/html")),
        "HTTP/1.1 200 OK\r\nContent-Type: text/html\r\n\r\n"
    );
    assert_eq!(response_head(Status::NotFound, None), "HTTP/1.1 404 Not Found\r\n\r\n");
}

#[test]
fn sniffing_wins_over_extension() {
    assert_eq!(get_content_type("cat.txt", &PNG_HEAD), "image/png");
    assert_eq!(
        file_response_head("cat.txt", &PNG_HEAD),
        "HTTP/1.1 200 OK\r\nContent-Type: image/png\r\n\r\n"
    );
}

#[test]
fn extension_fallback() {
    assert_eq!(get_content_type("notes.txt", b"hello"), "text/plain");
    assert_eq!(get_content_type("index.html", b""), "text/html");
    assert_eq!(get_content_type("photo.jpeg", b""), "image/jpeg");
    assert_eq!(get_content_type("clip.mov", b""), "video/mp4");
    assert_eq!(get_content_type("Cargo.lock", b""), "text/plain");
    assert_eq!(get_content_type("README.md", b""), "text/markdown");
    assert_eq!(get_content_type("icon.svg", b""), "image/svg+xml");
}

#[test]
fn unknown_types_are_binary() {
    assert_eq!(get_content_type("archive", b""), "application/octet-stream");
    assert_eq!(get_content_type(".bashrc", b""), "application/octet-stream");
    assert_eq!(get_content_type("photo.JPG", b""), "application/octet-stream");
    assert_eq!(get_content_type("data.bin", b"\x01\x02"), "application/octet-stream");
}

#[test]
fn extension_rules() {
    assert_eq!(extension("a.tar.gz"), Some("gz".to_string()));
    assert_eq!(extension(".hidden"), None);
    assert_eq!(extension("noext"), None);
    assert_eq!(extension("trailing."), Some("".to_string()));
    assert_eq!(type_for_extension(Some("zip")), "application/zip");
    assert_eq!(type_for_extension(None), "application/octet-stream");
    assert_eq!(content_type_for(Some("image/gif".to_string()), "x.png"), "image/gif");
    assert_eq!(content_type_for(None, "x.png"), "image/png");
}

#[test]
fn classification_is_repeatable() {
    let a = get_content_type("cat.txt", &PNG_HEAD);
    let b = get_content_type("cat.txt", &PNG_HEAD);
    assert_eq!(a, b);
}

#[test]
fn parent_links() {
    assert_eq!(parent_path("/"), "/");
    assert_eq!(parent_path("/img"), "/");
    assert_eq!(parent_path("/img/sub"), "/img");
    assert_eq!(parent_path("/img/"), "/img");
    assert_eq!(parent_path("plain"), "/");
}

#[test]
fn child_links() {
    assert_eq!(child_link_path("", "index.html"), "index.html");
    assert_eq!(child_link_path("img", "cat.png"), "img/cat.png");
    assert_eq!(child_link_path("img/", "cat.png"), "img/cat.png");
}

#[test]
fn root_listing_scenario() {
    let entries = vec![entry("index.html", false), entry("img", true)];
    let page = render_listing("/", &entries);
    let expected = "\n<!DOCTYPE html>\n<html>\n<head>\n    <meta charset=\"utf-8\">\n</head>\n<body>\n\
<h1>Currently in /</h1><li><a href=\"/\">Up to previous directory</a></li><ul>\
<li><a href=\"index.html\">index.html</a></li><li><a href=\"img\">img/</a></li></ul></body></html>";
    assert_eq!(page, expected);
    let response = listing_response("/", &entries);
    assert!(response.starts_with("HTTP/1.1 200 OK\r\nContent-Type: text/html\r\n\r\n"));
    assert!(response.ends_with(expected));
}

#[test]
fn subdirectory_listing_links() {
    let entries = vec![entry("cat.png", false)];
    let page = render_listing("/img", &entries);
    assert!(page.contains("<h1>Currently in /img</h1>"));
    assert!(page.contains("<li><a href=\"/\">Up to previous directory</a></li>"));
    assert!(page.contains("<li><a href=\"img/cat.png\">cat.png</a></li>"));
}

#[test]
fn empty_directory_listing() {
    let page = render_listing("/empty", &Vec::new());
    assert!(page.ends_with("<ul></ul></body></html>"));
}

#[test]
fn listing_links_are_percent_encoded() {
    let entries = vec![entry("a b\"#<>.txt", false), entry("\u{4e2d}", true)];
    let page = render_listing("/my dir", &entries);
    assert!(page.contains("<a href=\"/\">Up to previous directory</a>"));
    assert!(page.contains("<a href=\"my%20dir/a%20b%22%23%3C%3E.txt\">a b\"#<>.txt</a>"));
    assert!(page.contains("<a href=\"my%20dir/%E4%B8%AD\">\u{4e2d}/</a>"));
}

#[test]
fn link_round_trip() {
    for name in ["a b.txt", "q\"uote", "hash#tag", "<angle>", "plain.txt", "\u{4e2d}\u{6587}"] {
        let page = render_listing("/", &vec![entry(name, false)]);
        let start = page.find("<ul><li><a href=\"").unwrap() + "<ul><li><a href=\"".len();
        let end = start + page[start..].find('"').unwrap();
        let link = &page[start..end];
        assert_eq!(decode_url(&format!("/{}", link)), format!("/{}", name));
    }
}

#[test]
fn outcome_responses_follow_the_status_table() {
    let entries = vec![entry("index.html", false)];
    assert_eq!(
        outcome_response(Err(Rejected::Forbidden), "/../etc", &entries, "", b""),
        "HTTP/1.1 403 Forbidden\r\n\r\nBacktracking not allowed."
    );
    assert_eq!(
        outcome_response(Err(Rejected::NotFound), "/missing.txt", &entries, "", b""),
        "HTTP/1.1 404 Not Found\r\n\r\nFile not found."
    );
    assert_eq!(
        outcome_response(Ok(ResourceKind::Directory), "/", &entries, "", b""),
        listing_response("/", &entries)
    );
    assert_eq!(
        outcome_response(Ok(ResourceKind::File), "/img/cat.txt", &Vec::new(), "cat.txt", &PNG_HEAD),
        "HTTP/1.1 200 OK\r\nContent-Type: image/png\r\n\r\n"
    );
}

#[test]
fn link_round_trip_through_request_line() {
    for name in ["a b.txt", "q\"uote", "hash#tag", "<angle>", "plain.txt", "\u{4e2d}"] {
        let page = render_listing("/", &vec![entry(name, false)]);
        let start = page.find("<ul><li><a href=\"").unwrap() + "<ul><li><a href=\"".len();
        let end = start + page[start..].find('"').unwrap();
        let link = &page[start..end];
        let request = format!("GET /{} HTTP/1.1\r\nHost: localhost\r\n\r\n", link);
        assert_eq!(decode_url(&parse_path(&request)), format!("/{}", name));
    }
}

#[test]
fn absolute_escape_is_forbidden() {
    let root = comps(&["/", "srv", "www"]);
    match route("//etc/passwd") {
        Route::Lookup(p) => assert_eq!(p, "/etc/passwd"),
        Route::Reply(_) => panic!("expected a lookup"),
    }
    let outcome = resolve(&root, Some(&comps(&["/", "etc", "passwd"])), false);
    assert_eq!(outcome, Err(Rejected::Forbidden));
    assert_eq!(
        outcome_response(outcome, "//etc/passwd", &Vec::new(), "passwd", b"root:x"),
        "HTTP/1.1 403 Forbidden\r\n\r\nBacktracking not allowed."
    );
}
