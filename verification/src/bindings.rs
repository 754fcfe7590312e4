//! Calls into the outside crates and into the parts of `std` that `vstd`
//! does not specify. Every item here is trusted: Verus believes its
//! contract without reading its body. Where the behaviour can be stated in a
//! few lines it is stated; where it cannot, the result is given a name.
use vstd::prelude::*;
use vstd::utf8::{decode_utf8, encode_utf8, valid_utf8};
use base64::Engine;
use sha2::Digest;
use rand::Rng;

verus! {

// ---------------------------------------------------------------------
// urlencoding
// ---------------------------------------------------------------------

/// The bytes that `urlencoding` leaves as they are: ASCII letters, digits,
/// `-`, `.`, `_` and `~`.
pub open spec fn is_unreserved_byte(b: u8) -> bool {
    (48 <= b <= 57) || (65 <= b <= 90) || (97 <= b <= 122) || b == 45 || b == 46 || b == 95
        || b == 126
}

/// The upper-case hexadecimal digit for `d < 16`.
pub open spec fn hex_upper(d: nat) -> char {
    if d < 10 {
        (48 + d) as char
    } else {
        (55 + d) as char
    }
}

/// Percent-encoding of a byte sequence: unreserved bytes stay, every other
/// byte becomes `%` and two upper-case hexadecimal digits.
pub open spec fn percent_encode_bytes(b: Seq<u8>) -> Seq<char>
    decreases b.len(),
{
    if b.len() == 0 {
        seq![]
    } else {
        (if is_unreserved_byte(b[0]) {
            seq![b[0] as char]
        } else {
            seq!['%', hex_upper(b[0] as nat / 16), hex_upper(b[0] as nat % 16)]
        }) + percent_encode_bytes(b.drop_first())
    }
}

/// `urlencoding::encode`: the percent-encoding of the UTF-8 bytes of `s`.
pub open spec fn url_encode(s: Seq<char>) -> Seq<char> {
    percent_encode_bytes(encode_utf8(s))
}

/// The value of a hexadecimal digit byte, either case.
pub open spec fn hex_value(b: u8) -> Option<nat> {
    if 48 <= b <= 57 {
        Some((b - 48) as nat)
    } else if 65 <= b <= 70 {
        Some((b - 55) as nat)
    } else if 97 <= b <= 102 {
        Some((b - 87) as nat)
    } else {
        None
    }
}

/// Percent-decoding of a byte sequence: `%` and two hexadecimal digits
/// become one byte; every other byte, a lone `%` included, stays.
pub open spec fn percent_decode_bytes(b: Seq<u8>) -> Seq<u8>
    decreases b.len(),
{
    if b.len() == 0 {
        seq![]
    } else if b[0] == 37 && b.len() >= 3 && hex_value(b[1]) is Some && hex_value(b[2]) is Some {
        seq![(hex_value(b[1])->0 * 16 + hex_value(b[2])->0) as u8] + percent_decode_bytes(
            b.skip(3),
        )
    } else {
        seq![b[0]] + percent_decode_bytes(b.drop_first())
    }
}

/// `urlencoding::decode`: the percent-decoded bytes of `s` read as UTF-8,
/// or `None` when they are not valid UTF-8.
pub open spec fn url_decode(s: Seq<char>) -> Option<Seq<char>> {
    let d = percent_decode_bytes(encode_utf8(s));
    if valid_utf8(d) {
        Some(decode_utf8(d))
    } else {
        None
    }
}

/// The bytes of an ASCII character sequence.
pub open spec fn ascii_bytes(c: Seq<char>) -> Seq<u8> {
    c.map_values(|x: char| x as u8)
}

/// Percent-encoding gives ASCII characters only.
proof fn lemma_percent_encode_ascii(b: Seq<u8>)
    ensures
        vstd::utf8::is_ascii_chars(percent_encode_bytes(b)),
    decreases b.len(),
{
    if b.len() > 0 {
        lemma_percent_encode_ascii(b.drop_first());
        let rest = percent_encode_bytes(b.drop_first());
        let head = if is_unreserved_byte(b[0]) {
            seq![b[0] as char]
        } else {
            seq!['%', hex_upper(b[0] as nat / 16), hex_upper(b[0] as nat % 16)]
        };
        assert(percent_encode_bytes(b) == head + rest);
        assert forall|i: int| 0 <= i < (head + rest).len() implies '\0' <= #[trigger] (head
            + rest)[i] <= '\u{7f}' by {
            if i >= head.len() {
                assert((head + rest)[i] == rest[i - head.len()]);
            }
        }
    }
}

/// Percent-decoding undoes percent-encoding.
proof fn lemma_percent_decode_encode(b: Seq<u8>)
    ensures
        percent_decode_bytes(ascii_bytes(percent_encode_bytes(b))) == b,
    decreases b.len(),
{
    if b.len() == 0 {
        assert(ascii_bytes(percent_encode_bytes(b)) =~= Seq::<u8>::empty());
    } else {
        lemma_percent_decode_encode(b.drop_first());
        let rest = percent_encode_bytes(b.drop_first());
        let b0 = b[0];
        if is_unreserved_byte(b0) {
            let head = seq![b0 as char];
            assert(percent_encode_bytes(b) == head + rest);
            let bytes = ascii_bytes(head + rest);
            assert((b0 as char) as u8 == b0);
            assert(bytes =~= seq![b0] + ascii_bytes(rest));
            assert(bytes[0] == b0);
            assert(bytes.drop_first() =~= ascii_bytes(rest));
            assert(b =~= seq![b0] + b.drop_first());
        } else {
            let hi = b0 as nat / 16;
            let lo = b0 as nat % 16;
            let head = seq!['%', hex_upper(hi), hex_upper(lo)];
            assert(percent_encode_bytes(b) == head + rest);
            let bytes = ascii_bytes(head + rest);
            let h1 = (hex_upper(hi) as u8);
            let h2 = (hex_upper(lo) as u8);
            assert(hex_value(h1) == Some(hi));
            assert(hex_value(h2) == Some(lo));
            assert(('%' as u8) == 37);
            assert(bytes =~= seq![37u8, h1, h2] + ascii_bytes(rest));
            assert(bytes.skip(3) =~= ascii_bytes(rest));
            assert((hi * 16 + lo) as u8 == b0);
            assert(b =~= seq![b0] + b.drop_first());
        }
    }
}

/// Decoding an encoded text gives the text back.
pub proof fn law_url_decode_encode(s: Seq<char>)
    ensures
        url_decode(url_encode(s)) == Some(s),
{
    let b = encode_utf8(s);
    let e = percent_encode_bytes(b);
    lemma_percent_encode_ascii(b);
    vstd::utf8::is_ascii_chars_encode_utf8(e);
    assert(encode_utf8(e) =~= ascii_bytes(e));
    lemma_percent_decode_encode(b);
    vstd::utf8::encode_utf8_valid_utf8(s);
    vstd::utf8::encode_utf8_decode_utf8(s);
}

/// Bytes without `%` are left as they are by percent-decoding.
proof fn lemma_percent_decode_plain(b: Seq<u8>)
    requires
        forall|i: int| 0 <= i < b.len() ==> b[i] != 37,
    ensures
        percent_decode_bytes(b) == b,
    decreases b.len(),
{
    if b.len() > 0 {
        lemma_percent_decode_plain(b.drop_first());
        assert(b =~= seq![b[0]] + b.drop_first());
    }
}

/// No byte of the UTF-8 form of a character other than `%` is the byte of
/// `%`.
proof fn lemma_encode_scalar_no_percent(c: char)
    requires
        c != '%',
    ensures
        forall|i: int|
            0 <= i < vstd::utf8::encode_scalar(c as u32).len()
                ==> #[trigger] vstd::utf8::encode_scalar(c as u32)[i] != 37,
{
    let v = c as u32;
    vstd::utf8::char_u32_cast(c, v);
    assert(v != 37) by {
        if v == 37 {
            assert((37u32 as char) == '%');
        }
    }
    assert(forall|x: u32| x <= 0x7F && x != 37 ==> ((x & 0x7F) as u8) != 37u8) by (bit_vector);
    assert(forall|y: u8| (0xC0u8 | y) != 37u8) by (bit_vector);
    assert(forall|y: u8| (0xE0u8 | y) != 37u8) by (bit_vector);
    assert(forall|y: u8| (0xF0u8 | y) != 37u8) by (bit_vector);
    assert(forall|y: u8| (0x80u8 | y) != 37u8) by (bit_vector);
}

/// The UTF-8 form of a text without `%` holds no `%` byte.
proof fn lemma_encode_utf8_no_percent(s: Seq<char>)
    requires
        !s.contains('%'),
    ensures
        forall|i: int| 0 <= i < encode_utf8(s).len() ==> #[trigger] encode_utf8(s)[i] != 37,
    decreases s.len(),
{
    if s.len() > 0 {
        assert(s[0] != '%') by {
            if s[0] == '%' {
                assert(s.contains('%'));
            }
        }
        assert forall|x: char| s.drop_first().contains(x) implies s.contains(x) by {
            let k = choose|k: int| 0 <= k < s.drop_first().len() && s.drop_first()[k] == x;
            assert(s[k + 1] == x);
        }
        lemma_encode_utf8_no_percent(s.drop_first());
        lemma_encode_scalar_no_percent(s[0]);
        let head = vstd::utf8::encode_scalar(s[0] as u32);
        let tail = encode_utf8(s.drop_first());
        assert(encode_utf8(s) == head + tail);
        assert forall|i: int| 0 <= i < encode_utf8(s).len() implies #[trigger] encode_utf8(s)[i]
            != 37 by {
            if i < head.len() {
                assert(encode_utf8(s)[i] == head[i]);
            } else {
                assert(encode_utf8(s)[i] == tail[i - head.len()]);
            }
        }
    }
}

/// A text without `%` decodes to itself: decoding changes nothing else,
/// `+` included.
pub proof fn law_url_decode_plain(s: Seq<char>)
    requires
        !s.contains('%'),
    ensures
        url_decode(s) == Some(s),
{
    lemma_encode_utf8_no_percent(s);
    lemma_percent_decode_plain(encode_utf8(s));
    vstd::utf8::encode_utf8_valid_utf8(s);
    vstd::utf8::encode_utf8_decode_utf8(s);
}

/// `urlencoding::encode(s)`. The crate percent-encodes every byte of the
/// UTF-8 form of `s` except ASCII letters, digits, `-`, `.`, `_`, `~`,
/// with upper-case hexadecimal digits.
#[verifier::external_body]
pub(crate) fn percent_encode(s: &str) -> (r: String)
    ensures
        r@ == url_encode(s@),
{
    urlencoding::encode(s).into_owned()
}

/// `urlencoding::decode(s)`, with the UTF-8 error as `None`. The crate
/// turns `%` followed by two hexadecimal digits (either case) into that
/// byte, keeps every other byte, and reads the result as UTF-8.
#[verifier::external_body]
pub(crate) fn percent_decode(s: &str) -> (r: Option<String>)
    ensures
        match r {
            Some(d) => url_decode(s@) == Some(d@),
            None => url_decode(s@) is None,
        },
{
    match urlencoding::decode(s) {
        Ok(d) => Some(d.into_owned()),
        Err(_) => None,
    }
}

// ---------------------------------------------------------------------
// base64
// ---------------------------------------------------------------------

/// The character of the URL-safe base64 alphabet for `v < 64`.
pub open spec fn b64_char(v: nat) -> char {
    if v < 26 {
        (65 + v) as char
    } else if v < 52 {
        (97 + (v - 26)) as char
    } else if v < 62 {
        (48 + (v - 52)) as char
    } else if v == 62 {
        '-'
    } else {
        '_'
    }
}

/// Base64 with the URL-safe alphabet and no padding (RFC 4648, section 5):
/// every three bytes give four characters, a final two bytes give three,
/// a final byte gives two.
pub open spec fn base64_url(b: Seq<u8>) -> Seq<char>
    decreases b.len(),
{
    if b.len() == 0 {
        seq![]
    } else if b.len() == 1 {
        seq![b64_char(b[0] as nat / 4), b64_char((b[0] as nat % 4) * 16)]
    } else if b.len() == 2 {
        seq![
            b64_char(b[0] as nat / 4),
            b64_char((b[0] as nat % 4) * 16 + b[1] as nat / 16),
            b64_char((b[1] as nat % 16) * 4),
        ]
    } else {
        seq![
            b64_char(b[0] as nat / 4),
            b64_char((b[0] as nat % 4) * 16 + b[1] as nat / 16),
            b64_char((b[1] as nat % 16) * 4 + b[2] as nat / 64),
            b64_char(b[2] as nat % 64),
        ] + base64_url(b.skip(3))
    }
}

/// `base64::engine::general_purpose::URL_SAFE_NO_PAD.encode(bytes)`: the
/// URL-safe alphabet (`A-Z a-z 0-9 - _`) without `=` padding. The crate
/// panics only when the encoded length overflows `usize`, which the bound
/// in `requires` rules out.
#[verifier::external_body]
pub(crate) fn base64_url_encode(bytes: &[u8]) -> (r: String)
    requires
        bytes@.len() <= 0x1000_0000,
    ensures
        r@ == base64_url(bytes@),
{
    base64::engine::general_purpose::URL_SAFE_NO_PAD.encode(bytes)
}

// ---------------------------------------------------------------------
// sha2
// ---------------------------------------------------------------------

/// The SHA-256 digest of a byte sequence (FIPS 180-4).
pub uninterp spec fn sha256(b: Seq<u8>) -> Seq<u8>;

/// `sha2::Sha256::digest(bytes)`. Its output type holds 32 bytes.
#[verifier::external_body]
pub(crate) fn sha256_digest(bytes: &[u8]) -> (r: Vec<u8>)
    ensures
        r@ == sha256(bytes@),
        r@.len() == 32,
{
    sha2::Sha256::digest(bytes).to_vec()
}

// ---------------------------------------------------------------------
// rand
// ---------------------------------------------------------------------

/// `n` bytes from `rand::rng().fill`, the thread-local generator seeded by
/// the operating system. Nothing is stated of the bytes but their number.
/// The crate panics if the operating system cannot provide a seed; no
/// argument causes that, so `requires` cannot exclude it.
#[verifier::external_body]
pub(crate) fn random_bytes(n: usize) -> (r: Vec<u8>)
    ensures
        r@.len() == n,
{
    let mut buf = vec![0u8; n];
    rand::rng().fill(&mut buf[..]);
    buf
}

// ---------------------------------------------------------------------
// url
// ---------------------------------------------------------------------

/// The decoded query pairs of a URL text, in order, or `None` when the text
/// is not a URL.
pub uninterp spec fn url_query_pairs(text: Seq<char>) -> Option<Seq<(Seq<char>, Seq<char>)>>;

/// `url::Url::parse(text)` followed by `query_pairs()`: the pairs of the
/// query string decoded as `application/x-www-form-urlencoded`, in the
/// order in which they stand, or `None` when the text does not parse.
#[verifier::external_body]
pub(crate) fn query_pairs(text: &str) -> (r: Option<Vec<(String, String)>>)
    ensures
        match r {
            Some(v) => url_query_pairs(text@) == Some(
                v@.map_values(|p: (String, String)| (p.0@, p.1@)),
            ),
            None => url_query_pairs(text@) is None,
        },
{
    match url::Url::parse(text) {
        Ok(u) => Some(u.query_pairs().map(|(k, v)| (k.into_owned(), v.into_owned())).collect()),
        Err(_) => None,
    }
}

/// The `Display` text of the error that parsing `text` as a URL gives, or
/// `None` when `text` is a URL.
pub uninterp spec fn url_error(text: Seq<char>) -> Option<Seq<char>>;

/// The path of the URL `text` as its serialization writes it, or `None`
/// when `text` is not a URL.
pub uninterp spec fn url_path(text: Seq<char>) -> Option<Seq<char>>;

/// `url::Url::parse(text)`: the URL's `path()` or the `Display` text of
/// the parse error.
#[verifier::external_body]
pub(crate) fn parse_url_path(text: &str) -> (r: Result<String, String>)
    ensures
        match r {
            Ok(p) => url_error(text@) is None && url_path(text@) == Some(p@),
            Err(e) => url_error(text@) == Some(e@) && url_path(text@) is None,
        },
{
    match url::Url::parse(text) {
        Ok(u) => Ok(u.path().to_string()),
        Err(e) => Err(e.to_string()),
    }
}

// ---------------------------------------------------------------------
// serde_json
// ---------------------------------------------------------------------

/// The message of the error that parsing `text` as JSON gives, or `None`
/// when `text` is a JSON document.
pub uninterp spec fn json_error(text: Seq<char>) -> Option<Seq<char>>;

/// The string that the JSON pointer `pointer` selects in the document
/// `text`, or `None` when `text` is not JSON or nothing, or no string,
/// stands there.
pub uninterp spec fn json_str_at(text: Seq<char>, pointer: Seq<char>) -> Option<Seq<char>>;

/// The length of the array that the JSON pointer `pointer` selects in the
/// document `text`, or `None` when `text` is not JSON or no array stands
/// there.
pub uninterp spec fn json_array_len_at(text: Seq<char>, pointer: Seq<char>) -> Option<nat>;

/// `serde_json::from_str::<Value>(text)`, reduced to the `Display` text of
/// its error.
#[verifier::external_body]
pub(crate) fn json_parse_error(text: &str) -> (r: Option<String>)
    ensures
        match r {
            Some(m) => json_error(text@) == Some(m@),
            None => json_error(text@) is None,
        },
{
    match serde_json::from_str::<serde_json::Value>(text) {
        Ok(_) => None,
        Err(e) => Some(e.to_string()),
    }
}

/// `serde_json::from_str::<Value>(text)`, then `Value::pointer(pointer)`
/// (RFC 6901), then `Value::as_str`.
#[verifier::external_body]
pub(crate) fn json_pointer_str(text: &str, pointer: &str) -> (r: Option<String>)
    ensures
        match r {
            Some(s) => json_str_at(text@, pointer@) == Some(s@),
            None => json_str_at(text@, pointer@) is None,
        },
{
    match serde_json::from_str::<serde_json::Value>(text) {
        Ok(v) => match v.pointer(pointer) {
            Some(x) => x.as_str().map(str::to_string),
            None => None,
        },
        Err(_) => None,
    }
}

/// `serde_json::from_str::<Value>(text)`, then `Value::pointer(pointer)`
/// (RFC 6901), then `Value::as_array` and the array's length.
#[verifier::external_body]
pub(crate) fn json_pointer_array_len(text: &str, pointer: &str) -> (r: Option<usize>)
    ensures
        match r {
            Some(n) => json_array_len_at(text@, pointer@) == Some(n as nat),
            None => json_array_len_at(text@, pointer@) is None,
        },
{
    match serde_json::from_str::<serde_json::Value>(text) {
        Ok(v) => match v.pointer(pointer) {
            Some(x) => x.as_array().map(Vec::len),
            None => None,
        },
        Err(_) => None,
    }
}

// ---------------------------------------------------------------------
// std
// ---------------------------------------------------------------------

/// The lower-case form of `s` by the Unicode `Lowercase` mapping.
pub uninterp spec fn lowercase(s: Seq<char>) -> Seq<char>;

/// `str::to_lowercase`.
#[verifier::external_body]
pub(crate) fn to_lowercase(s: &str) -> (r: String)
    ensures
        r@ == lowercase(s@),
{
    s.to_lowercase()
}

/// The characters that `String::from_utf8_lossy` reads from `b`.
pub uninterp spec fn utf8_lossy(b: Seq<u8>) -> Seq<char>;

/// `String::from_utf8_lossy(bytes)`: invalid sequences become U+FFFD; valid
/// UTF-8 is read as it is.
#[verifier::external_body]
pub(crate) fn from_utf8_lossy(bytes: &[u8]) -> (r: String)
    ensures
        r@ == utf8_lossy(bytes@),
        valid_utf8(bytes@) ==> r@ == decode_utf8(bytes@),
{
    String::from_utf8_lossy(bytes).into_owned()
}

} // verus!
