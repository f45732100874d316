//! Percent coding of request targets and listing links.
use vstd::prelude::*;
use vstd::utf8::{decode_utf8, encode_scalar, encode_utf8, valid_utf8};
use url_escape::percent_encoding::{percent_decode_str, utf8_percent_encode};

verus! {

/// The value of an ASCII hexadecimal digit, either case.
pub open spec fn hex_value(b: u8) -> Option<u8> {
    if 0x30 <= b <= 0x39 {
        Some((b - 0x30) as u8)
    } else if 0x41 <= b <= 0x46 {
        Some((b - 0x41 + 10) as u8)
    } else if 0x61 <= b <= 0x66 {
        Some((b - 0x61 + 10) as u8)
    } else {
        None
    }
}

/// Whether `b[i]` starts an escape: `%` followed by two hexadecimal digits.
pub open spec fn escape_at(b: Seq<u8>, i: int) -> bool {
    &&& 0 <= i
    &&& i + 2 < b.len()
    &&& b[i] == 0x25
    &&& hex_value(b[i + 1]) is Some
    &&& hex_value(b[i + 2]) is Some
}

/// Percent-decoding: each escape becomes the byte it names; every other byte,
/// a lone `%` included, is kept.
pub open spec fn percent_decoded(b: Seq<u8>) -> Seq<u8>
    decreases b.len(),
{
    if b.len() == 0 {
        Seq::empty()
    } else if escape_at(b, 0) {
        seq![(hex_value(b[1])->0 * 16 + hex_value(b[2])->0) as u8] + percent_decoded(
            b.subrange(3, b.len() as int),
        )
    } else {
        seq![b[0]] + percent_decoded(b.drop_first())
    }
}

/// The bytes that a link escapes: controls, non-ASCII bytes, space, `"`, `#`, `<`, `>`.
pub open spec fn escaped_in_link(b: u8) -> bool {
    b < 0x20 || b >= 0x7f || b == 0x20 || b == 0x22 || b == 0x23 || b == 0x3c || b == 0x3e
}

/// An upper-case hexadecimal digit for a value below 16.
pub open spec fn hex_digit(d: u8) -> u8 {
    if d < 10 {
        (0x30 + d) as u8
    } else {
        (0x41 + d - 10) as u8
    }
}

/// Percent-encoding over the link set: an escaped byte becomes `%` and two
/// upper-case hexadecimal digits, any other byte stays.
pub open spec fn percent_encoded(b: Seq<u8>) -> Seq<u8>
    decreases b.len(),
{
    if b.len() == 0 {
        Seq::empty()
    } else {
        let head = if escaped_in_link(b[0]) {
            seq![0x25u8, hex_digit(b[0] / 16), hex_digit(b[0] % 16)]
        } else {
            seq![b[0]]
        };
        head + percent_encoded(b.drop_first())
    }
}

/// The characters of a sequence of ASCII bytes.
pub open spec fn ascii_chars(b: Seq<u8>) -> Seq<char> {
    b.map_values(|x: u8| x as char)
}

/// The text that lossy UTF-8 decoding gives for some bytes.
pub uninterp spec fn utf8_lossy(b: Seq<u8>) -> Seq<char>;

/// Relies on `String::from_utf8_lossy`: valid UTF-8 decodes to the characters
/// it encodes; each invalid sequence becomes U+FFFD.
#[verifier::external_body]
pub(crate) fn lossy_text(b: &[u8]) -> (r: String)
    ensures
        r@ == utf8_lossy(b@),
        valid_utf8(b@) ==> r@ == decode_utf8(b@),
{
    String::from_utf8_lossy(b).into_owned()
}

/// Relies on `percent_encoding::percent_decode_str` (re-exported by
/// `url_escape`): it yields the decoded bytes of the UTF-8 form of `s`.
#[verifier::external_body]
fn percent_decode(s: &str) -> (r: Vec<u8>)
    ensures
        r@ == percent_decoded(encode_utf8(s@)),
{
    percent_decode_str(s).collect()
}

/// Relies on `percent_encoding::utf8_percent_encode` with `url_escape::QUERY`
/// (the controls, space, `"`, `#`, `<` and `>`): non-ASCII bytes and those of
/// the set become `%XX` with upper-case digits.
#[verifier::external_body]
pub(crate) fn encode_link(s: &str) -> (r: String)
    ensures
        r@ == ascii_chars(percent_encoded(encode_utf8(s@))),
{
    utf8_percent_encode(s, url_escape::QUERY).to_string()
}

/// No `%` in `b` is followed by two hexadecimal digits.
pub open spec fn free_of_escapes(b: Seq<u8>) -> bool {
    forall|i: int| !#[trigger] escape_at(b, i)
}

proof fn lemma_hex_digit_value(d: u8)
    requires
        d < 16,
    ensures
        hex_value(hex_digit(d)) == Some(d),
{
}

proof fn lemma_encoded_first(b: Seq<u8>)
    requires
        b.len() > 0,
    ensures
        percent_encoded(b).len() > 0,
        percent_encoded(b)[0] == (if escaped_in_link(b[0]) {
            0x25u8
        } else {
            b[0]
        }),
{
    let head = if escaped_in_link(b[0]) {
        seq![0x25u8, hex_digit(b[0] / 16), hex_digit(b[0] % 16)]
    } else {
        seq![b[0]]
    };
    assert(percent_encoded(b) == head + percent_encoded(b.drop_first()));
}

pub(crate) proof fn lemma_encoded_ascii(b: Seq<u8>)
    ensures
        forall|i: int|
            0 <= i < percent_encoded(b).len() ==> 0x21 <= #[trigger] percent_encoded(b)[i] < 0x7f,
    decreases b.len(),
{
    if b.len() > 0 {
        lemma_encoded_ascii(b.drop_first());
        let head = if escaped_in_link(b[0]) {
            seq![0x25u8, hex_digit(b[0] / 16), hex_digit(b[0] % 16)]
        } else {
            seq![b[0]]
        };
        assert(percent_encoded(b) == head + percent_encoded(b.drop_first()));
    }
}

pub(crate) proof fn lemma_utf8_of_ascii(b: Seq<u8>)
    requires
        forall|i: int| 0 <= i < b.len() ==> #[trigger] b[i] < 0x80,
    ensures
        encode_utf8(ascii_chars(b)) == b,
    decreases b.len(),
{
    if b.len() > 0 {
        let c = ascii_chars(b);
        let v = b[0] as u32;
        assert(c[0] as u32 == v);
        assert((v & 0x7F) == v) by (bit_vector)
            requires
                v <= 0x7F,
        ;
        assert(encode_scalar(c[0] as u32) =~= seq![b[0]]);
        assert(c.drop_first() =~= ascii_chars(b.drop_first()));
        lemma_utf8_of_ascii(b.drop_first());
        assert(encode_utf8(c) =~= b);
    }
}

/// Decoding undoes encoding for bytes in which no `%` is followed by two
/// hexadecimal digits.
pub proof fn lemma_decode_encoded(b: Seq<u8>)
    requires
        free_of_escapes(b),
    ensures
        percent_decoded(percent_encoded(b)) == b,
    decreases b.len(),
{
    if b.len() > 0 {
        let rest = b.drop_first();
        assert forall|i: int| !#[trigger] escape_at(rest, i) by {
            if escape_at(rest, i) {
                assert(escape_at(b, i + 1));
            }
        }
        lemma_decode_encoded(rest);
        let e = percent_encoded(b);
        let er = percent_encoded(rest);
        let x = b[0];
        if escaped_in_link(x) {
            let head = seq![0x25u8, hex_digit(x / 16), hex_digit(x % 16)];
            assert(e == head + er);
            lemma_hex_digit_value(x / 16);
            lemma_hex_digit_value(x % 16);
            assert(escape_at(e, 0));
            assert(e.subrange(3, e.len() as int) =~= er);
            assert(((x / 16) * 16 + x % 16) as u8 == x);
            assert(percent_decoded(e) =~= seq![x] + b.drop_first());
        } else {
            assert(e == seq![x] + er);
            assert(!escape_at(e, 0)) by {
                if escape_at(e, 0) {
                    lemma_encoded_first(rest);
                    assert(!escaped_in_link(rest[0]));
                    let rr = rest.drop_first();
                    assert(er == seq![rest[0]] + percent_encoded(rr));
                    if rr.len() == 0 {
                        assert(er.len() == 1);
                    }
                    lemma_encoded_first(rr);
                    assert(!escaped_in_link(rr[0]));
                    assert(escape_at(b, 0));
                }
            }
            assert(e.drop_first() =~= er);
            assert(percent_decoded(e) =~= seq![x] + b.drop_first());
        }
        assert(seq![x] + b.drop_first() =~= b);
    }
}

/// The decoded form of a raw target path.
pub open spec fn decoded_target(url: Seq<char>) -> Seq<char> {
    utf8_lossy(percent_decoded(encode_utf8(url)))
}

/// Percent-decodes a raw target path, decoding the bytes as UTF-8 lossily.
pub fn decode_url(url: &str) -> (r: String)
    ensures
        r@ == decoded_target(url@),
        valid_utf8(percent_decoded(encode_utf8(url@))) ==> r@ == decode_utf8(
            percent_decoded(encode_utf8(url@)),
        ),
{
    let bytes = percent_decode(url);
    lossy_text(bytes.as_slice())
}

} // verus!
