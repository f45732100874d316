//! Content types of served files: content sniffing first, the file name's
//! extension second, a generic binary type last.
use vstd::prelude::*;

verus! {

/// Index of the last `.` among the first `n` characters of `s`, or -1.
pub open spec fn last_dot(s: Seq<char>, n: int) -> int
    decreases n,
{
    if n <= 0 {
        -1
    } else if s[n - 1] == '.' {
        n - 1
    } else {
        last_dot(s, n - 1)
    }
}

proof fn lemma_last_dot_bounds(s: Seq<char>, n: int)
    ensures
        -1 <= last_dot(s, n) < n || n <= 0,
    decreases n,
{
    if n > 0 && s[n - 1] != '.' {
        lemma_last_dot_bounds(s, n - 1);
    }
}

/// The extension of a file name: what follows its last `.`, unless that dot
/// is the first character or there is none.
pub open spec fn extension_of(name: Seq<char>) -> Option<Seq<char>> {
    let k = last_dot(name, name.len() as int);
    if k > 0 {
        Some(name.subrange(k + 1, name.len() as int))
    } else {
        None
    }
}

/// The content type that a file name's extension stands for.
pub open spec fn extension_type(ext: Option<Seq<char>>) -> Seq<char> {
    match ext {
        Some(e) => if e == "html"@ {
            "text/html"@
        } else if e == "txt"@ {
            "text/plain"@
        } else if e == "png"@ {
            "image/png"@
        } else if e == "jpg"@ || e == "jpeg"@ {
            "image/jpeg"@
        } else if e == "svg"@ {
            "image/svg+xml"@
        } else if e == "mp4"@ || e == "mov"@ {
            "video/mp4"@
        } else if e == "mp3"@ {
            "audio/mpeg"@
        } else if e == "json"@ {
            "application/json"@
        } else if e == "pdf"@ {
            "application/pdf"@
        } else if e == "md"@ {
            "text/markdown"@
        } else if e == "zip"@ {
            "application/zip"@
        } else if e == "rs"@ || e == "toml"@ || e == "lock"@ || e == "TAG"@ || e == "HEAD"@ {
            "text/plain"@
        } else {
            "application/octet-stream"@
        },
        None => "application/octet-stream"@,
    }
}

/// The content type of a file: the sniffed type when there is one, else the
/// type of its name's extension.
pub open spec fn content_type(sniffed: Option<Seq<char>>, name: Seq<char>) -> Seq<char> {
    match sniffed {
        Some(m) => m,
        None => extension_type(extension_of(name)),
    }
}

/// The view of an optional string.
pub open spec fn opt_view(s: Option<String>) -> Option<Seq<char>> {
    match s {
        Some(m) => Some(m@),
        None => None,
    }
}

/// The MIME type that magic-byte sniffing finds in the first bytes of a file.
pub uninterp spec fn sniffed_type(head: Seq<u8>) -> Option<Seq<char>>;

/// Relies on `infer::get` (default matchers, a function of the bytes alone)
/// and `infer::Type::mime_type`.
#[verifier::external_body]
fn sniff(head: &[u8]) -> (r: Option<String>)
    ensures
        opt_view(r) == sniffed_type(head@),
{
    infer::get(head).map(|kind| kind.mime_type().to_string())
}

fn same_text(a: &str, b: &str) -> (r: bool)
    ensures
        r == (a@ == b@),
{
    let n = a.unicode_len();
    if n != b.unicode_len() {
        return false;
    }
    let mut i: usize = 0;
    while i < n
        invariant
            n == a@.len() == b@.len(),
            0 <= i <= n,
            a@.subrange(0, i as int) == b@.subrange(0, i as int),
        decreases n - i,
    {
        if a.get_char(i) != b.get_char(i) {
            return false;
        }
        proof {
            assert(a@.subrange(0, i + 1) =~= a@.subrange(0, i as int).push(a@[i as int]));
            assert(b@.subrange(0, i + 1) =~= b@.subrange(0, i as int).push(b@[i as int]));
        }
        i = i + 1;
    }
    proof {
        assert(a@ =~= a@.subrange(0, n as int));
        assert(b@ =~= b@.subrange(0, n as int));
    }
    true
}

fn find_last_dot(s: &str) -> (r: usize)
    ensures
        r as int == last_dot(s@, s@.len() as int) + 1,
{
    let mut n = s.unicode_len();
    while n > 0
        invariant
            0 <= n <= s@.len(),
            last_dot(s@, s@.len() as int) == last_dot(s@, n as int),
        decreases n,
    {
        if s.get_char(n - 1) == '.' {
            return n;
        }
        n = n - 1;
    }
    0
}

/// The extension of a file name, as `extension_of` describes it.
pub fn extension(name: &str) -> (r: Option<String>)
    ensures
        opt_view(r) == extension_of(name@),
{
    let k = find_last_dot(name);
    proof {
        lemma_last_dot_bounds(name@, name@.len() as int);
    }
    if k > 1 {
        Some(String::from_str(name.substring_char(k, name.unicode_len())))
    } else {
        None
    }
}

/// The content type of an extension, or the generic binary type.
pub fn type_for_extension(ext: Option<&str>) -> (r: String)
    ensures
        r@ == extension_type(
            match ext {
                Some(e) => Some(e@),
                None => None,
            },
        ),
{
    match ext {
        Some(e) => if same_text(e, "html") {
            String::from_str("text/html")
        } else if same_text(e, "txt") {
            String::from_str("text/plain")
        } else if same_text(e, "png") {
            String::from_str("image/png")
        } else if same_text(e, "jpg") || same_text(e, "jpeg") {
            String::from_str("image/jpeg")
        } else if same_text(e, "svg") {
            String::from_str("image/svg+xml")
        } else if same_text(e, "mp4") || same_text(e, "mov") {
            String::from_str("video/mp4")
        } else if same_text(e, "mp3") {
            String::from_str("audio/mpeg")
        } else if same_text(e, "json") {
            String::from_str("application/json")
        } else if same_text(e, "pdf") {
            String::from_str("application/pdf")
        } else if same_text(e, "md") {
            String::from_str("text/markdown")
        } else if same_text(e, "zip") {
            String::from_str("application/zip")
        } else if same_text(e, "rs") || same_text(e, "toml") || same_text(e, "lock") || same_text(
            e,
            "TAG",
        ) || same_text(e, "HEAD") {
            String::from_str("text/plain")
        } else {
            String::from_str("application/octet-stream")
        },
        None => String::from_str("application/octet-stream"),
    }
}

/// The content type of a file from the outcome of sniffing and its name.
pub fn content_type_for(sniffed: Option<String>, file_name: &str) -> (r: String)
    ensures
        r@ == content_type(opt_view(sniffed), file_name@),
{
    match sniffed {
        Some(m) => m,
        None => {
            let ext = extension(file_name);
            match ext {
                Some(e) => type_for_extension(Some(e.as_str())),
                None => type_for_extension(None),
            }
        },
    }
}

/// The content type of a file, sniffed from its first bytes (up to 512),
/// else taken from its name's extension.
pub fn get_content_type(file_name: &str, head: &[u8]) -> (r: String)
    ensures
        r@ == content_type(sniffed_type(head@), file_name@),
{
    content_type_for(sniff(head), file_name)
}

/// Classifying the same file twice, with the same name and the same first
/// bytes, gives the same content type.
pub proof fn lemma_content_type_repeatable(
    name1: Seq<char>,
    head1: Seq<u8>,
    name2: Seq<char>,
    head2: Seq<u8>,
)
    requires
        name1 == name2,
        head1 == head2,
    ensures
        content_type(sniffed_type(head1), name1) == content_type(sniffed_type(head2), name2),
{
}

} // verus!
