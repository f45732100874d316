//! The decisions of the request handler and the framing of its responses.
use vstd::prelude::*;
use crate::listing::{listing_page, render_listing, ListingEntry};
use crate::mime::{content_type, get_content_type, sniffed_type};
use crate::request::{parse_path, target_of};
use crate::resolve::{
    contained_in, relative_target, resolution, strip_root_slash, Rejected, ResourceKind,
};
use crate::url::{decode_url, decoded_target, lossy_text, utf8_lossy};

verus! {

/// The status of a response.
#[derive(PartialEq, Eq, Structural, Clone, Copy, Debug)]
pub enum Status {
    Success,
    Forbidden,
    NotFound,
}

/// What to do with a decoded target path.
#[derive(Debug)]
pub enum Route {
    /// Answer at once with this complete response.
    Reply(String),
    /// Resolve this path, relative to the root, and serve what it names.
    Lookup(String),
}

/// The status line of a response, with its line end.
pub open spec fn status_line(s: Status) -> Seq<char> {
    match s {
        Status::Success => "HTTP/1.1 200 OK\r\n"@,
        Status::Forbidden => "HTTP/1.1 403 Forbidden\r\n"@,
        Status::NotFound => "HTTP/1.1 404 Not Found\r\n"@,
    }
}

/// The head of a response: status line, a `Content-Type` header when there
/// is a type, and the blank line.
pub open spec fn head_text(s: Status, content_type: Option<Seq<char>>) -> Seq<char> {
    match content_type {
        Some(t) => status_line(s) + "Content-Type: "@ + t + "\r\n"@ + "\r\n"@,
        None => status_line(s) + "\r\n"@,
    }
}

/// The complete response to a rejected target.
pub open spec fn rejection_text(r: Rejected) -> Seq<char> {
    match r {
        Rejected::Forbidden => head_text(Status::Forbidden, None) + "Backtracking not allowed."@,
        Rejected::NotFound => head_text(Status::NotFound, None) + "File not found."@,
    }
}

/// The complete response to a probe for `/favicon.ico`: not found, empty body.
pub open spec fn favicon_text() -> Seq<char> {
    head_text(Status::NotFound, None)
}

/// The decoded target path of the raw bytes of a request.
pub open spec fn request_target_of(buffer: Seq<u8>) -> Seq<char> {
    decoded_target(target_of(utf8_lossy(buffer)))
}

/// Where a decoded target path leads.
pub open spec fn route_of(decoded: Seq<char>) -> (Seq<char>, bool) {
    if decoded == "/favicon.ico"@ {
        (favicon_text(), true)
    } else {
        (relative_target(decoded), false)
    }
}

/// The view of a route: its text, and whether it is a complete reply.
pub open spec fn route_view(r: Route) -> (Seq<char>, bool) {
    match r {
        Route::Reply(t) => (t@, true),
        Route::Lookup(p) => (p@, false),
    }
}

fn status_text(s: Status) -> (r: String)
    ensures
        r@ == status_line(s),
{
    match s {
        Status::Success => String::from_str("HTTP/1.1 200 OK\r\n"),
        Status::Forbidden => String::from_str("HTTP/1.1 403 Forbidden\r\n"),
        Status::NotFound => String::from_str("HTTP/1.1 404 Not Found\r\n"),
    }
}

/// The head of a response with the given status and content type.
pub fn response_head(status: Status, content_type: Option<&str>) -> (r: String)
    ensures
        r@ == head_text(
            status,
            match content_type {
                Some(t) => Some(t@),
                None => None,
            },
        ),
{
    let mut r = status_text(status);
    match content_type {
        Some(t) => {
            r.append("Content-Type: ");
            r.append(t);
            r.append("\r\n");
            r.append("\r\n");
        },
        None => {
            r.append("\r\n");
        },
    }
    r
}

/// The complete response to a rejected target; it never names a filesystem path.
pub fn rejection_response(rejected: Rejected) -> (r: String)
    ensures
        r@ == rejection_text(rejected),
{
    match rejected {
        Rejected::Forbidden => {
            let mut r = response_head(Status::Forbidden, None);
            r.append("Backtracking not allowed.");
            r
        },
        Rejected::NotFound => {
            let mut r = response_head(Status::NotFound, None);
            r.append("File not found.");
            r
        },
    }
}

/// The decoded target path of a request, from the bytes first read from the
/// connection: lossy UTF-8 text, the target token of its first line,
/// percent-decoded.
pub fn request_target(buffer: &[u8]) -> (r: String)
    ensures
        r@ == request_target_of(buffer@),
{
    let text = lossy_text(buffer);
    let raw = parse_path(text.as_str());
    decode_url(raw.as_str())
}

fn is_favicon(p: &str) -> (r: bool)
    ensures
        r == (p@ == "/favicon.ico"@),
{
    proof {
        reveal_strlit("/favicon.ico");
    }
    let n = p.unicode_len();
    if n != 12 {
        return false;
    }
    let r = p.get_char(0) == '/' && p.get_char(1) == 'f' && p.get_char(2) == 'a' && p.get_char(3)
        == 'v' && p.get_char(4) == 'i' && p.get_char(5) == 'c' && p.get_char(6) == 'o'
        && p.get_char(7) == 'n' && p.get_char(8) == '.' && p.get_char(9) == 'i' && p.get_char(10)
        == 'c' && p.get_char(11) == 'o';
    proof {
        if r {
            assert(p@ =~= "/favicon.ico"@);
        } else {
            assert(p@ != "/favicon.ico"@) by {
                if p@ == "/favicon.ico"@ {
                    assert(p@[0] == '/' && p@[1] == 'f' && p@[2] == 'a' && p@[3] == 'v');
                }
            }
        }
    }
    r
}

/// Routes a decoded target path: a favicon probe is answered at once with
/// not found; anything else is looked up relative to the root.
pub fn route(decoded: &str) -> (r: Route)
    ensures
        route_view(r) == route_of(decoded@),
{
    if is_favicon(decoded) {
        Route::Reply(response_head(Status::NotFound, None))
    } else {
        Route::Lookup(strip_root_slash(decoded))
    }
}

/// The complete response for a listed directory: 200 OK, HTML.
pub fn listing_response(path: &str, entries: &Vec<ListingEntry>) -> (r: String)
    ensures
        r@ == head_text(Status::Success, Some("text/html"@)) + listing_page(path@, entries@),
{
    let mut r = response_head(Status::Success, Some("text/html"));
    let page = render_listing(path, entries);
    r.append(page.as_str());
    r
}

/// The head of the response for a served file: 200 OK with the file's
/// content type, sniffed from its first bytes or taken from its name; the
/// file's bytes follow it.
pub fn file_response_head(file_name: &str, head: &[u8]) -> (r: String)
    ensures
        r@ == head_text(Status::Success, Some(content_type(sniffed_type(head@), file_name@))),
{
    let t = get_content_type(file_name, head);
    response_head(Status::Success, Some(t.as_str()))
}

/// The response text for the outcome of resolving a target: a rejection's
/// complete response; for a directory, the listing; for a file, the head that
/// its bytes follow.
pub open spec fn outcome_text(
    outcome: Result<ResourceKind, Rejected>,
    path: Seq<char>,
    entries: Seq<ListingEntry>,
    file_name: Seq<char>,
    head: Seq<u8>,
) -> Seq<char> {
    match outcome {
        Err(r) => rejection_text(r),
        Ok(ResourceKind::Directory) => head_text(Status::Success, Some("text/html"@))
            + listing_page(path, entries),
        Ok(ResourceKind::File) => head_text(
            Status::Success,
            Some(content_type(sniffed_type(head), file_name)),
        ),
    }
}

/// The response for the outcome of resolving the decoded target `path`.
/// `entries` are the children of a directory and are read only for one;
/// `file_name` and `head` (the file's first bytes) only for a file, whose
/// bytes follow the returned text. Only a file is answered with content.
pub fn outcome_response(
    outcome: Result<ResourceKind, Rejected>,
    path: &str,
    entries: &Vec<ListingEntry>,
    file_name: &str,
    head: &[u8],
) -> (r: String)
    ensures
        r@ == outcome_text(outcome, path@, entries@, file_name@, head@),
{
    match outcome {
        Err(rejected) => rejection_response(rejected),
        Ok(ResourceKind::Directory) => listing_response(path, entries),
        Ok(ResourceKind::File) => file_response_head(file_name, head),
    }
}

/// A target outside the root is answered with 403 Forbidden and the body
/// `Backtracking not allowed.`, never with content.
pub proof fn lemma_escape_answered_forbidden(
    root: Seq<Seq<u8>>,
    candidate: Seq<Seq<u8>>,
    is_dir: bool,
)
    requires
        !contained_in(root, candidate),
    ensures
        resolution(root, Some(candidate), is_dir) == Err::<ResourceKind, Rejected>(
            Rejected::Forbidden,
        ),
        rejection_text(Rejected::Forbidden) == "HTTP/1.1 403 Forbidden\r\n"@ + "\r\n"@
            + "Backtracking not allowed."@,
        forall|path: Seq<char>, entries: Seq<ListingEntry>, file_name: Seq<char>, head: Seq<u8>|
            #[trigger] outcome_text(
                resolution(root, Some(candidate), is_dir),
                path,
                entries,
                file_name,
                head,
            ) == rejection_text(Rejected::Forbidden),
{
}

} // verus!
