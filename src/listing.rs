//! HTML listings of directories.
use vstd::prelude::*;
use vstd::utf8::{
    decode_utf8, encode_scalar, encode_utf8, encode_utf8_decode_utf8, encode_utf8_valid_utf8, valid_utf8,
};
use crate::request::{is_space_spec, lemma_target_of_request_line, target_of};
use crate::resolve::{relative_target, strip_root_slash};
use crate::url::{
    ascii_chars, encode_link, escape_at, free_of_escapes, lemma_decode_encoded, lemma_encoded_ascii,
    lemma_utf8_of_ascii, percent_decoded, percent_encoded,
};

verus! {

/// One child of a listed directory.
#[derive(Debug)]
pub struct ListingEntry {
    /// The child's file name.
    pub name: String,
    /// Whether the child is a directory.
    pub is_dir: bool,
}

/// The text of a link to a path: its UTF-8 form, percent-encoded.
pub open spec fn link_text(p: Seq<char>) -> Seq<char> {
    ascii_chars(percent_encoded(encode_utf8(p)))
}

/// Index of the last `/` among the first `n` characters of `s`, or -1.
pub open spec fn last_slash(s: Seq<char>, n: int) -> int
    decreases n,
{
    if n <= 0 {
        -1
    } else if s[n - 1] == '/' {
        n - 1
    } else {
        last_slash(s, n - 1)
    }
}

/// The target of the link up: `/` for the root; otherwise the path with its
/// last `/`-delimited segment removed (all of it when it holds no `/`), `/`
/// when nothing is left.
pub open spec fn parent_target(path: Seq<char>) -> Seq<char> {
    if path == "/"@ {
        "/"@
    } else {
        let k = last_slash(path, path.len() as int);
        let t = if k >= 0 {
            path.subrange(0, k)
        } else {
            Seq::empty()
        };
        if t.len() == 0 {
            "/"@
        } else {
            t
        }
    }
}

/// The path of a child relative to the root, from its directory's relative path.
pub open spec fn child_path(dir: Seq<char>, name: Seq<char>) -> Seq<char> {
    if dir.len() == 0 {
        name
    } else if dir.last() == '/' {
        dir + name
    } else {
        dir + "/"@ + name
    }
}

/// The name shown for a child: directories get a trailing `/`.
pub open spec fn display_name(e: ListingEntry) -> Seq<char> {
    if e.is_dir {
        e.name@ + "/"@
    } else {
        e.name@
    }
}

/// The list item of one child.
pub open spec fn entry_item(dir: Seq<char>, e: ListingEntry) -> Seq<char> {
    "<li><a href=\""@ + link_text(child_path(dir, e.name@)) + "\">"@ + display_name(e)
        + "</a></li>"@
}

/// The list items of children, in the order given.
pub open spec fn entry_items(dir: Seq<char>, es: Seq<ListingEntry>) -> Seq<char>
    decreases es.len(),
{
    if es.len() == 0 {
        Seq::empty()
    } else {
        entry_items(dir, es.drop_last()) + entry_item(dir, es.last())
    }
}

/// The opening of every listing page.
pub open spec fn page_start() -> Seq<char> {
    "\n<!DOCTYPE html>\n<html>\n<head>\n    <meta charset=\"utf-8\">\n</head>\n<body>\n"@
}

/// The listing page of the directory at decoded path `path`: a heading with
/// the path, one link up, and one item per child.
pub open spec fn listing_page(path: Seq<char>, es: Seq<ListingEntry>) -> Seq<char> {
    page_start() + "<h1>Currently in "@ + path + "</h1>"@ + "<li><a href=\""@ + link_text(
        parent_target(path),
    ) + "\">Up to previous directory</a></li>"@ + "<ul>"@ + entry_items(
        relative_target(path),
        es,
    ) + "</ul></body></html>"@
}

proof fn lemma_last_slash_bounds(s: Seq<char>, n: int)
    ensures
        -1 <= last_slash(s, n) < n || n <= 0,
    decreases n,
{
    if n > 0 && s[n - 1] != '/' {
        lemma_last_slash_bounds(s, n - 1);
    }
}

fn find_last_slash(s: &str) -> (r: usize)
    ensures
        r as int == last_slash(s@, s@.len() as int) + 1,
{
    let mut n = s.unicode_len();
    while n > 0
        invariant
            0 <= n <= s@.len(),
            last_slash(s@, s@.len() as int) == last_slash(s@, n as int),
        decreases n,
    {
        if s.get_char(n - 1) == '/' {
            return n;
        }
        n = n - 1;
    }
    0
}

fn is_root(path: &str) -> (r: bool)
    ensures
        r == (path@ == "/"@),
{
    proof {
        reveal_strlit("/");
    }
    let n = path.unicode_len();
    if n == 1 && path.get_char(0) == '/' {
        proof {
            assert(path@ =~= "/"@);
        }
        true
    } else {
        false
    }
}

/// The target of the link up from the directory at `path`.
pub fn parent_path(path: &str) -> (r: String)
    ensures
        r@ == parent_target(path@),
{
    if is_root(path) {
        return String::from_str("/");
    }
    let len = path.unicode_len();
    let n = find_last_slash(path);
    proof {
        lemma_last_slash_bounds(path@, len as int);
    }
    let t = if n > 0 {
        path.substring_char(0, n - 1)
    } else {
        path.substring_char(0, 0)
    };
    proof {
        assert(n == 0 ==> t@ =~= Seq::<char>::empty());
    }
    if t.unicode_len() == 0 {
        String::from_str("/")
    } else {
        String::from_str(t)
    }
}

/// The path of a child relative to the root.
pub fn child_link_path(dir: &str, name: &str) -> (r: String)
    ensures
        r@ == child_path(dir@, name@),
{
    let n = dir.unicode_len();
    let mut r = String::from_str(dir);
    if n == 0 {
        return String::from_str(name);
    } else if dir.get_char(n - 1) != '/' {
        r.append("/");
    }
    r.append(name);
    r
}

/// Renders the listing page of the directory at decoded path `path` with
/// the given children.
pub fn render_listing(path: &str, entries: &Vec<ListingEntry>) -> (r: String)
    ensures
        r@ == listing_page(path@, entries@),
{
    let mut html = String::from_str(
        "\n<!DOCTYPE html>\n<html>\n<head>\n    <meta charset=\"utf-8\">\n</head>\n<body>\n",
    );
    html.append("<h1>Currently in ");
    html.append(path);
    html.append("</h1>");
    html.append("<li><a href=\"");
    let up = parent_path(path);
    let up_link = encode_link(up.as_str());
    html.append(up_link.as_str());
    html.append("\">Up to previous directory</a></li>");
    html.append("<ul>");
    let dir = strip_root_slash(path);
    let ghost start = html@;
    let mut i: usize = 0;
    while i < entries.len()
        invariant
            0 <= i <= entries@.len(),
            dir@ == relative_target(path@),
            html@ == start + entry_items(dir@, entries@.subrange(0, i as int)),
        decreases entries.len() - i,
    {
        let e = &entries[i];
        let child = child_link_path(dir.as_str(), e.name.as_str());
        let link = encode_link(child.as_str());
        html.append("<li><a href=\"");
        html.append(link.as_str());
        html.append("\">");
        html.append(e.name.as_str());
        if e.is_dir {
            html.append("/");
        }
        html.append("</a></li>");
        proof {
            let s = entries@.subrange(0, i + 1);
            assert(s.drop_last() =~= entries@.subrange(0, i as int));
            assert(s.last() == entries@[i as int]);
        }
        i = i + 1;
    }
    html.append("</ul></body></html>");
    proof {
        assert(entries@.subrange(0, entries@.len() as int) =~= entries@);
    }
    html
}

/// A listing link, percent-decoded on a later request, gives back the UTF-8
/// form of the path it was made from, which decodes to that path. This holds
/// for every path whose UTF-8 form has no `%` followed by two hexadecimal
/// digits; spaces, `"`, `#`, `<`, `>` and non-ASCII characters included.
pub proof fn lemma_link_round_trip(p: Seq<char>)
    requires
        free_of_escapes(encode_utf8(p)),
    ensures
        percent_decoded(encode_utf8(link_text(p))) == encode_utf8(p),
        valid_utf8(encode_utf8(p)),
        decode_utf8(encode_utf8(p)) == p,
{
    let b = encode_utf8(p);
    lemma_encoded_ascii(b);
    lemma_utf8_of_ascii(percent_encoded(b));
    lemma_decode_encoded(b);
    encode_utf8_valid_utf8(p);
    encode_utf8_decode_utf8(p);
}

/// A listing link sent back as the target of a request line
/// `method /link ...` is the target that the line yields, and percent-decoding
/// it gives the UTF-8 form of `/` and the path the link was made from, which
/// decodes to them. This holds for every path whose UTF-8 form has no `%`
/// followed by two hexadecimal digits.
pub proof fn lemma_request_round_trip(method: Seq<char>, p: Seq<char>, tail: Seq<char>)
    requires
        method.len() > 0,
        forall|k: int| 0 <= k < method.len() ==> !is_space_spec(#[trigger] method[k]),
        free_of_escapes(encode_utf8(p)),
    ensures
        target_of(method + seq![' '] + (seq!['/'] + link_text(p)) + seq![' '] + tail) == seq!['/']
            + link_text(p),
        percent_decoded(encode_utf8(seq!['/'] + link_text(p))) == encode_utf8(seq!['/'] + p),
        valid_utf8(encode_utf8(seq!['/'] + p)),
        decode_utf8(encode_utf8(seq!['/'] + p)) == seq!['/'] + p,
{
    let b = encode_utf8(p);
    let e = percent_encoded(b);
    let target = seq!['/'] + link_text(p);
    lemma_encoded_ascii(b);
    assert forall|k: int| 0 <= k < target.len() implies !is_space_spec(#[trigger] target[k]) by {
        if k > 0 {
            assert(target[k] == e[k - 1] as char);
        }
    }
    lemma_target_of_request_line(method, target, tail);
    let slash_e = seq![0x2fu8] + e;
    assert forall|i: int| 0 <= i < slash_e.len() implies #[trigger] slash_e[i] < 0x80 by {
        if i > 0 {
            assert(slash_e[i] == e[i - 1]);
        }
    }
    lemma_utf8_of_ascii(slash_e);
    assert(ascii_chars(slash_e) =~= target);
    lemma_decode_encoded(b);
    assert(!escape_at(slash_e, 0));
    assert(slash_e.drop_first() =~= e);
    assert(percent_decoded(slash_e) == seq![0x2fu8] + percent_decoded(e));
    let sp = seq!['/'] + p;
    assert(sp.drop_first() =~= p);
    let v = '/' as u32;
    assert((v & 0x7F) == v) by (bit_vector)
        requires
            v == 0x2f,
    ;
    assert(encode_scalar(sp[0] as u32) =~= seq![0x2fu8]);
    assert(encode_utf8(sp) == encode_scalar(sp[0] as u32) + encode_utf8(sp.drop_first()));
    assert(seq![0x2fu8] + b =~= encode_utf8(sp));
    encode_utf8_valid_utf8(sp);
    encode_utf8_decode_utf8(sp);
}

} // verus!
