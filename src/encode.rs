//! Percent-encoding of URL components, so that an owner address or a key
//! can never change the shape of the upstream URL.
use vstd::prelude::*;
use vstd::utf8::encode_utf8;

verus! {

/// Bytes that stand for themselves in a URL component (RFC 3986 "unreserved").
pub open spec fn is_unreserved(b: u8) -> bool {
    ||| 0x41 <= b <= 0x5a
    ||| 0x61 <= b <= 0x7a
    ||| 0x30 <= b <= 0x39
    ||| b == 0x2d
    ||| b == 0x2e
    ||| b == 0x5f
    ||| b == 0x7e
}

/// The upper-case hexadecimal digit of a nibble.
pub open spec fn hex_digit(n: u8) -> char
    recommends
        n < 16,
{
    if n < 10 {
        (0x30 + n) as char
    } else {
        (0x41 + n - 10) as char
    }
}

/// How one byte is written: itself if unreserved, else `%` and two hex digits.
pub open spec fn encode_byte(b: u8) -> Seq<char> {
    if is_unreserved(b) {
        seq![b as char]
    } else {
        seq!['%', hex_digit(b / 16), hex_digit(b % 16)]
    }
}

pub open spec fn encode_bytes(bs: Seq<u8>) -> Seq<char>
    decreases bs.len(),
{
    if bs.len() == 0 {
        Seq::empty()
    } else {
        encode_bytes(bs.drop_last()) + encode_byte(bs.last())
    }
}

/// The percent-encoding of a text: each byte of its UTF-8 form, in order.
pub open spec fn percent_encoded(s: Seq<char>) -> Seq<char> {
    encode_bytes(encode_utf8(s))
}

/// Relies on std's String::push: the character is appended at the end.
#[verifier::external_body]
fn push_char(s: &mut String, c: char)
    ensures
        final(s)@ == old(s)@.push(c),
{
    s.push(c)
}

fn hex_char(n: u8) -> (c: char)
    requires
        n < 16,
    ensures
        c == hex_digit(n),
{
    if n < 10 {
        (0x30 + n) as char
    } else {
        (0x41 + n - 10) as char
    }
}

fn unreserved(b: u8) -> (r: bool)
    ensures
        r == is_unreserved(b),
{
    (0x41 <= b && b <= 0x5a) || (0x61 <= b && b <= 0x7a) || (0x30 <= b && b <= 0x39) || b == 0x2d
        || b == 0x2e || b == 0x5f || b == 0x7e
}

/// Appends the percent-encoding of `s` to `out`.
pub fn push_encoded(out: &mut String, s: &str)
    ensures
        final(out)@ == old(out)@ + percent_encoded(s@),
{
    let bytes = s.as_bytes();
    let ghost start = out@;
    let mut i: usize = 0;
    while i < bytes.len()
        invariant
            bytes@ == encode_utf8(s@),
            0 <= i <= bytes@.len(),
            out@ == start + encode_bytes(bytes@.take(i as int)),
        decreases bytes@.len() - i,
    {
        let b = bytes[i];
        if unreserved(b) {
            push_char(out, b as char);
        } else {
            push_char(out, '%');
            push_char(out, hex_char(b / 16));
            push_char(out, hex_char(b % 16));
        }
        proof {
            let t = bytes@.take(i + 1);
            assert(t.drop_last() =~= bytes@.take(i as int));
            assert(t.last() == b);
        }
        assert(out@ =~= start + encode_bytes(bytes@.take(i + 1)));
        i = i + 1;
    }
    assert(bytes@.take(i as int) =~= bytes@);
}


/// The upstream lookup URL for a key and an owner, both percent-encoded.
pub open spec fn upstream_url_of(api_key: Seq<char>, owner: Seq<char>) -> Seq<char> {
    URL_BASE@ + percent_encoded(api_key) + URL_QUERY@ + percent_encoded(owner)
}

pub const URL_BASE: &'static str = "https://eth-mainnet.g.alchemy.com/v2/";

pub const URL_QUERY: &'static str = "/getNFTs?owner=";

/// Builds the upstream request URL for `owner`, authenticated by `api_key`.
pub fn upstream_url(api_key: &str, owner: &str) -> (r: String)
    ensures
        r@ == upstream_url_of(api_key@, owner@),
{
    let mut url = String::new();
    url.append(URL_BASE);
    push_encoded(&mut url, api_key);
    url.append(URL_QUERY);
    push_encoded(&mut url, owner);
    assert(url@ =~= upstream_url_of(api_key@, owner@));
    url
}


/// Characters that can stand in an encoded component: the unreserved ones and `%`.
pub open spec fn is_url_safe(c: char) -> bool {
    ||| c == '%'
    ||| 'A' <= c <= 'Z'
    ||| 'a' <= c <= 'z'
    ||| '0' <= c <= '9'
    ||| c == '-'
    ||| c == '.'
    ||| c == '_'
    ||| c == '~'
}

/// Whether a byte is a hexadecimal digit, in either case.
pub open spec fn is_hex_byte(b: u8) -> bool {
    ||| 0x30 <= b <= 0x39
    ||| 0x41 <= b <= 0x46
    ||| 0x61 <= b <= 0x66
}

/// The value of a hexadecimal digit byte.
pub open spec fn hex_byte_value(b: u8) -> u8 {
    if 0x30 <= b <= 0x39 {
        (b - 0x30) as u8
    } else if 0x41 <= b <= 0x46 {
        (b - 0x41 + 10) as u8
    } else {
        (b - 0x61 + 10) as u8
    }
}

/// Percent-decoding of bytes: `%` and two hex digits stand for one byte;
/// any other byte, a stray `%` included, stands for itself.
pub open spec fn unescape(bs: Seq<u8>) -> Seq<u8>
    decreases bs.len(),
{
    if bs.len() == 0 {
        Seq::empty()
    } else if bs[0] == 0x25 && bs.len() >= 3 && is_hex_byte(bs[1]) && is_hex_byte(bs[2]) {
        seq![(hex_byte_value(bs[1]) * 16 + hex_byte_value(bs[2])) as u8] + unescape(
            bs.subrange(3, bs.len() as int),
        )
    } else {
        seq![bs[0]] + unescape(bs.drop_first())
    }
}

/// The bytes of text made of ASCII characters only.
pub open spec fn ascii_bytes(cs: Seq<char>) -> Seq<u8> {
    cs.map_values(|c: char| c as u8)
}

proof fn lemma_byte_url_safe(b: u8)
    ensures
        forall|i: int| 0 <= i < encode_byte(b).len() ==> is_url_safe(#[trigger] encode_byte(b)[i]),
{
    assert(b / 16 < 16);
    assert(b % 16 < 16);
}

proof fn lemma_bytes_url_safe(bs: Seq<u8>)
    ensures
        forall|i: int|
            0 <= i < encode_bytes(bs).len() ==> is_url_safe(#[trigger] encode_bytes(bs)[i]),
    decreases bs.len(),
{
    if bs.len() > 0 {
        lemma_bytes_url_safe(bs.drop_last());
        lemma_byte_url_safe(bs.last());
        let a = encode_bytes(bs.drop_last());
        let e = encode_byte(bs.last());
        assert forall|i: int| 0 <= i < encode_bytes(bs).len() implies is_url_safe(
            #[trigger] encode_bytes(bs)[i],
        ) by {
            if i < a.len() {
                assert(encode_bytes(bs)[i] == a[i]);
            } else {
                assert(encode_bytes(bs)[i] == e[i - a.len()]);
            }
        }
    }
}

/// Percent-encoded text holds only unreserved characters and `%`: no space,
/// `?`, `&`, `#` or `/` of the input survives to change the URL's shape.
pub proof fn lemma_encoded_is_url_safe(s: Seq<char>)
    ensures
        forall|i: int|
            0 <= i < percent_encoded(s).len() ==> is_url_safe(#[trigger] percent_encoded(s)[i]),
{
    lemma_bytes_url_safe(encode_utf8(s));
}

proof fn lemma_unescape_byte(b: u8, tail: Seq<u8>)
    ensures
        unescape(ascii_bytes(encode_byte(b)) + tail) == seq![b] + unescape(tail),
{
    let bs = ascii_bytes(encode_byte(b)) + tail;
    if is_unreserved(b) {
        assert(bs[0] == b);
        assert(bs.drop_first() =~= tail);
    } else {
        let hi = b / 16;
        let lo = b % 16;
        assert(bs[0] == 0x25);
        assert(bs[1] == hex_digit(hi) as u8);
        assert(bs[2] == hex_digit(lo) as u8);
        assert(is_hex_byte(bs[1]) && hex_byte_value(bs[1]) == hi);
        assert(is_hex_byte(bs[2]) && hex_byte_value(bs[2]) == lo);
        assert(bs.subrange(3, bs.len() as int) =~= tail);
        assert((hi * 16 + lo) as u8 == b);
    }
}

proof fn lemma_unescape_bytes(bs: Seq<u8>, tail: Seq<u8>)
    ensures
        unescape(ascii_bytes(encode_bytes(bs)) + tail) == bs + unescape(tail),
    decreases bs.len(),
{
    if bs.len() == 0 {
        assert(ascii_bytes(encode_bytes(bs)) + tail =~= tail);
        assert(bs + unescape(tail) =~= unescape(tail));
    } else {
        let init = bs.drop_last();
        let e = ascii_bytes(encode_byte(bs.last()));
        assert(ascii_bytes(encode_bytes(bs)) =~= ascii_bytes(encode_bytes(init)) + e);
        assert(ascii_bytes(encode_bytes(bs)) + tail =~= ascii_bytes(encode_bytes(init)) + (e
            + tail));
        lemma_unescape_bytes(init, e + tail);
        lemma_unescape_byte(bs.last(), tail);
        assert(init + (seq![bs.last()] + unescape(tail)) =~= bs + unescape(tail));
    }
}

/// Decoding the percent-encoded form of a text gives back the UTF-8 bytes of
/// that very text, so the text itself: an owner address reaches the upstream
/// service as it was written, whatever characters it holds.
pub proof fn lemma_encoding_round_trip(s: Seq<char>)
    ensures
        unescape(encode_utf8(percent_encoded(s))) == encode_utf8(s),
        vstd::utf8::valid_utf8(unescape(encode_utf8(percent_encoded(s)))),
        vstd::utf8::decode_utf8(unescape(encode_utf8(percent_encoded(s)))) == s,
{
    let pe = percent_encoded(s);
    lemma_encoded_is_url_safe(s);
    assert(vstd::utf8::is_ascii_chars(pe));
    vstd::utf8::is_ascii_chars_encode_utf8(pe);
    assert(encode_utf8(pe) =~= ascii_bytes(pe));
    lemma_unescape_bytes(encode_utf8(s), Seq::empty());
    assert(ascii_bytes(pe) + Seq::<u8>::empty() =~= ascii_bytes(pe));
    assert(encode_utf8(s) + Seq::<u8>::empty() =~= encode_utf8(s));
    vstd::utf8::encode_utf8_valid_utf8(s);
    vstd::utf8::encode_utf8_decode_utf8(s);
}

/// Different owners always give different upstream URLs under one key, so
/// the lookups of two owners never share an upstream request.
pub proof fn lemma_distinct_owners_distinct_urls(api_key: Seq<char>, a: Seq<char>, b: Seq<char>)
    requires
        a != b,
    ensures
        upstream_url_of(api_key, a) != upstream_url_of(api_key, b),
{
    let p = URL_BASE@ + percent_encoded(api_key) + URL_QUERY@;
    if upstream_url_of(api_key, a) == upstream_url_of(api_key, b) {
        let ua = upstream_url_of(api_key, a);
        let ub = upstream_url_of(api_key, b);
        assert(ua.subrange(p.len() as int, ua.len() as int) =~= percent_encoded(a));
        assert(ub.subrange(p.len() as int, ub.len() as int) =~= percent_encoded(b));
        lemma_encoding_round_trip(a);
        lemma_encoding_round_trip(b);
        assert(percent_encoded(a) == percent_encoded(b));
    }
}


/// Relies on std's String::from_utf8: the text whose UTF-8 form the bytes
/// are, and an error exactly where they are not valid UTF-8.
#[verifier::external_body]
fn string_from_utf8(bytes: Vec<u8>) -> (r: Option<String>)
    ensures
        r is Some <==> vstd::utf8::valid_utf8(bytes@),
        r matches Some(t) ==> t@ == vstd::utf8::decode_utf8(bytes@),
{
    String::from_utf8(bytes).ok()
}

fn hex_byte(b: u8) -> (r: bool)
    ensures
        r == is_hex_byte(b),
{
    (0x30 <= b && b <= 0x39) || (0x41 <= b && b <= 0x46) || (0x61 <= b && b <= 0x66)
}

fn hex_byte_val(b: u8) -> (r: u8)
    requires
        is_hex_byte(b),
    ensures
        r == hex_byte_value(b),
        r < 16,
{
    if b <= 0x39 {
        b - 0x30
    } else if b <= 0x46 {
        b - 0x41 + 10
    } else {
        b - 0x61 + 10
    }
}

/// Reads a URL path segment as the text it stands for: percent-escapes are
/// decoded, and the segment is refused where the result is not UTF-8.
pub fn decode_segment(segment: &str) -> (r: Option<String>)
    ensures
        r is Some <==> vstd::utf8::valid_utf8(unescape(encode_utf8(segment@))),
        r matches Some(t) ==> t@ == vstd::utf8::decode_utf8(unescape(encode_utf8(segment@))),
{
    let bytes = segment.as_bytes();
    let mut out: Vec<u8> = Vec::new();
    let mut i: usize = 0;
    proof {
        assert(bytes@.subrange(0, bytes@.len() as int) =~= bytes@);
    }
    while i < bytes.len()
        invariant
            bytes@ == encode_utf8(segment@),
            0 <= i <= bytes@.len(),
            out@ + unescape(bytes@.subrange(i as int, bytes@.len() as int)) == unescape(bytes@),
        decreases bytes@.len() - i,
    {
        let ghost rest = bytes@.subrange(i as int, bytes@.len() as int);
        let b = bytes[i];
        if b == 0x25 && bytes.len() - i >= 3 && hex_byte(bytes[i + 1]) && hex_byte(bytes[i + 2]) {
            let v = hex_byte_val(bytes[i + 1]) * 16 + hex_byte_val(bytes[i + 2]);
            out.push(v);
            proof {
                assert(rest.subrange(3, rest.len() as int) =~= bytes@.subrange(
                    i + 3,
                    bytes@.len() as int,
                ));
                assert(out@ + unescape(bytes@.subrange(i + 3, bytes@.len() as int)) =~= (out@.drop_last()
                    + unescape(rest)));
            }
            i = i + 3;
        } else {
            out.push(b);
            proof {
                assert(rest.drop_first() =~= bytes@.subrange(i + 1, bytes@.len() as int));
                assert(out@ + unescape(bytes@.subrange(i + 1, bytes@.len() as int)) =~= (out@.drop_last()
                    + unescape(rest)));
            }
            i = i + 1;
        }
    }
    proof {
        assert(bytes@.subrange(i as int, bytes@.len() as int) =~= Seq::<u8>::empty());
        assert(out@ + Seq::<u8>::empty() =~= out@);
    }
    string_from_utf8(out)
}

} // verus!
