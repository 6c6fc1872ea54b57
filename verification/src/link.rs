//! Building the Payment Link URL.

use vstd::prelude::*;
use vstd::utf8::{decode_utf8, encode_utf8, is_ascii_chars, valid_utf8};

use crate::payment::{pairs_view, Resolved};
use crate::spec::{
    field_key, letter_char, Field, PaymentType, PAYMENT_LINK_DOMAIN, SCHEME_ID, VERSION,
};
use crate::strings::{char_from_ascii, from_chars, lossy_utf8, push_all, push_str, to_chars, utf8_lossy};

verus! {

/// Bytes sent as they are: `A-Z a-z 0-9 * - . _`.
pub open spec fn unreserved(b: u8) -> bool {
    (65 <= b && b <= 90) || (97 <= b && b <= 122) || (48 <= b && b <= 57) || b == 42 || b == 45
        || b == 46 || b == 95
}

/// An upper-case hexadecimal digit for `0 <= d < 16`.
pub open spec fn hex_digit(d: int) -> char {
    if d < 10 {
        ((d + 48) as u32) as char
    } else {
        ((d + 55) as u32) as char
    }
}

/// The form-urlencoded spelling of one byte.
pub open spec fn encoded_byte(b: u8) -> Seq<char> {
    if unreserved(b) {
        seq![(b as u32) as char]
    } else if b == 32 {
        seq!['+']
    } else {
        seq!['%', hex_digit(b as int / 16), hex_digit(b as int % 16)]
    }
}

/// The form-urlencoded spelling of a byte string.
pub open spec fn encoded_bytes(b: Seq<u8>) -> Seq<char>
    decreases b.len(),
{
    if b.len() == 0 {
        seq![]
    } else {
        encoded_byte(b[0]) + encoded_bytes(b.skip(1))
    }
}

/// The encoding of an attribute value: of the bytes of its UTF-8 encoding.
pub open spec fn encoded_value(v: Seq<char>) -> Seq<char> {
    encoded_bytes(encode_utf8(v))
}

fn hex_char(d: u8) -> (c: char)
    requires
        d < 16,
    ensures
        c == hex_digit(d as int),
{
    if d < 10 {
        char_from_ascii(d as u32 + 48)
    } else {
        char_from_ascii(d as u32 + 55)
    }
}

/// Percent-encode one attribute value.
///
/// This is the `application/x-www-form-urlencoded` serialisation that the
/// payme.sk generator produces: everything outside `A-Z a-z 0-9 * - . _` is
/// percent-encoded and a space becomes `+`. The standard allows both `+` and
/// `%20` for spaces and recommends `+` for readability.
pub fn encode_value(value: &str) -> (r: String)
    ensures
        r@ == encoded_value(value@),
{
    let bytes = value.as_bytes();
    let n = bytes.len();
    let mut out: Vec<char> = Vec::new();
    assert(bytes@.skip(0) =~= bytes@);
    assert(out@ + encoded_bytes(bytes@) =~= encoded_bytes(bytes@));
    for i in 0..n
        invariant
            n == bytes@.len(),
            bytes@ == encode_utf8(value@),
            encoded_bytes(bytes@) == out@ + encoded_bytes(bytes@.skip(i as int)),
    {
        let b = bytes[i];
        let ghost before = out@;
        assert(bytes@.skip(i as int).skip(1) =~= bytes@.skip(i + 1));
        assert(bytes@.skip(i as int)[0] == b);
        if (65 <= b && b <= 90) || (97 <= b && b <= 122) || (48 <= b && b <= 57) || b == 42 || b
            == 45 || b == 46 || b == 95 {
            out.push(char_from_ascii(b as u32));
        } else if b == 32 {
            out.push('+');
        } else {
            out.push('%');
            out.push(hex_char(b / 16));
            out.push(hex_char(b % 16));
        }
        assert(out@ =~= before + encoded_byte(b));
    }
    assert(bytes@.skip(n as int) =~= Seq::<u8>::empty());
    assert(out@ =~= out@ + encoded_bytes(Seq::<u8>::empty()));
    from_chars(out.as_slice())
}

/// The value of an ASCII hexadecimal digit, in either case.
pub open spec fn hex_value(b: u8) -> Option<u8> {
    if 48 <= b && b <= 57 {
        Some((b - 48) as u8)
    } else if 65 <= b && b <= 70 {
        Some((b - 55) as u8)
    } else if 97 <= b && b <= 102 {
        Some((b - 87) as u8)
    } else {
        None
    }
}

/// What `u8::from_str_radix(.., 16)` reads from the two bytes after a `%`:
/// two hexadecimal digits, or a `+` sign and one digit.
pub open spec fn percent_pair(b1: u8, b2: u8) -> Option<u8> {
    match (hex_value(b1), hex_value(b2)) {
        (Some(h), Some(l)) => Some((h * 16 + l) as u8),
        (None, Some(l)) => if b1 == 43 {
            Some(l)
        } else {
            None
        },
        _ => None,
    }
}

/// The bytes a form-urlencoded byte string stands for: `+` is a space, `%`
/// followed by a readable pair is that byte, anything else stands for itself.
pub open spec fn decoded_bytes(b: Seq<u8>) -> Seq<u8>
    decreases b.len(),
{
    if b.len() == 0 {
        seq![]
    } else if b[0] == 43 {
        seq![32u8] + decoded_bytes(b.skip(1))
    } else if b[0] == 37 && 2 < b.len() && percent_pair(b[1], b[2]) is Some {
        seq![percent_pair(b[1], b[2])->0] + decoded_bytes(b.skip(3))
    } else {
        seq![b[0]] + decoded_bytes(b.skip(1))
    }
}

/// The text of decoded bytes: the characters they encode where they are UTF-8,
/// otherwise what the lossy conversion makes of them.
pub open spec fn utf8_text_of(b: Seq<u8>) -> Seq<char> {
    if valid_utf8(b) {
        decode_utf8(b)
    } else {
        lossy_utf8(b)
    }
}

/// The text a form-urlencoded value stands for.
pub open spec fn decoded_value(v: Seq<char>) -> Seq<char> {
    utf8_text_of(decoded_bytes(encode_utf8(v)))
}

fn hex_byte_value(b: u8) -> (r: Option<u8>)
    ensures
        r == hex_value(b),
{
    if 48 <= b && b <= 57 {
        Some(b - 48)
    } else if 65 <= b && b <= 70 {
        Some(b - 55)
    } else if 97 <= b && b <= 102 {
        Some(b - 87)
    } else {
        None
    }
}

fn read_pair(b1: u8, b2: u8) -> (r: Option<u8>)
    ensures
        r == percent_pair(b1, b2),
{
    match (hex_byte_value(b1), hex_byte_value(b2)) {
        (Some(h), Some(l)) => Some(h * 16 + l),
        (None, Some(l)) => if b1 == 43 {
            Some(l)
        } else {
            None
        },
        _ => None,
    }
}

/// Decode a form-urlencoded value.
pub fn decode_value(value: &str) -> (r: String)
    ensures
        r@ == decoded_value(value@),
{
    let bytes = value.as_bytes();
    let n = bytes.len();
    let mut out: Vec<u8> = Vec::new();
    let mut i: usize = 0;
    assert(bytes@.skip(0) =~= bytes@);
    assert(out@ + decoded_bytes(bytes@) =~= decoded_bytes(bytes@));
    while i < n
        invariant
            i <= n,
            n == bytes@.len(),
            bytes@ == encode_utf8(value@),
            decoded_bytes(bytes@) == out@ + decoded_bytes(bytes@.skip(i as int)),
        decreases n - i,
    {
        let ghost rest = bytes@.skip(i as int);
        let ghost before = out@;
        assert(rest[0] == bytes@[i as int]);
        let b = bytes[i];
        if b == 43 {
            out.push(32);
            assert(rest.skip(1) =~= bytes@.skip(i + 1));
            i += 1;
        } else if b == 37 && n - i > 2 {
            assert(rest[1] == bytes@[i + 1] && rest[2] == bytes@[i + 2]);
            match read_pair(bytes[i + 1], bytes[i + 2]) {
                Some(v) => {
                    out.push(v);
                    assert(rest.skip(3) =~= bytes@.skip(i + 3));
                    i += 3;
                },
                None => {
                    out.push(b);
                    assert(rest.skip(1) =~= bytes@.skip(i + 1));
                    i += 1;
                },
            }
        } else {
            out.push(b);
            assert(rest.skip(1) =~= bytes@.skip(i + 1));
            i += 1;
        }
        assert(out@ =~= before + (out@.subrange(before.len() as int, out@.len() as int)));
    }
    assert(bytes@.skip(n as int) =~= Seq::<u8>::empty());
    assert(out@ =~= out@ + decoded_bytes(Seq::<u8>::empty()));
    utf8_lossy(out.as_slice())
}

// ---------------------------------------------------------------------------
// The link
// ---------------------------------------------------------------------------

/// `https://payme.sk/2/{type}/PME`.
pub open spec fn base_of(t: PaymentType) -> Seq<char> {
    "https://"@ + PAYMENT_LINK_DOMAIN@ + seq!['/'] + VERSION@ + seq!['/', letter_char(t), '/']
        + SCHEME_ID@
}

/// The scheme, authority and path components: `https://payme.sk/2/{type}/PME`.
pub fn base_url(resolved: &Resolved) -> (r: String)
    ensures
        r@ == base_of(resolved.payment_type),
{
    let v = base_chars(resolved.payment_type);
    from_chars(v.as_slice())
}

fn base_chars(t: PaymentType) -> (r: Vec<char>)
    ensures
        r@ == base_of(t),
{
    let mut out: Vec<char> = Vec::new();
    push_str(&mut out, "https://");
    push_str(&mut out, PAYMENT_LINK_DOMAIN);
    out.push('/');
    push_str(&mut out, VERSION);
    out.push('/');
    let l = to_chars(t.letter());
    push_all(&mut out, l.as_slice());
    out.push('/');
    push_str(&mut out, SCHEME_ID);
    assert(out@ =~= base_of(t));
    out
}

/// One attribute of the query string: `KEY=value`, the value encoded.
pub open spec fn attribute(f: Field, v: Seq<char>) -> Seq<char> {
    field_key(f) + seq!['='] + encoded_value(v)
}

/// The attributes joined by `&`.
pub open spec fn query_of(values: Seq<(Field, Seq<char>)>) -> Seq<char>
    decreases values.len(),
{
    if values.len() == 0 {
        seq![]
    } else if values.len() == 1 {
        attribute(values[0].0, values[0].1)
    } else {
        query_of(values.drop_last()) + seq!['&'] + attribute(values.last().0, values.last().1)
    }
}

/// The complete link: the base, and the query when there is any attribute.
pub open spec fn link_of(t: PaymentType, values: Seq<(Field, Seq<char>)>) -> Seq<char> {
    if values.len() == 0 {
        base_of(t)
    } else {
        base_of(t) + seq!['?'] + query_of(values)
    }
}

/// The complete Payment Link.
pub fn build(resolved: &Resolved) -> (r: String)
    ensures
        r@ == link_of(resolved.payment_type, pairs_view(resolved.values@)),
{
    let ghost all = pairs_view(resolved.values@);
    let n = resolved.values.len();
    let mut query: Vec<char> = Vec::new();
    for i in 0..n
        invariant
            n == resolved.values@.len(),
            all == pairs_view(resolved.values@),
            query@ == query_of(all.take(i as int)),
    {
        let ghost before = query@;
        assert(all.take(i + 1).drop_last() =~= all.take(i as int));
        assert(all.take(i + 1).last() == all[i as int]);
        if i > 0 {
            query.push('&');
        }
        let (field, value) = (resolved.values[i].0, &resolved.values[i].1);
        push_str(&mut query, field.key());
        query.push('=');
        let e = encode_value(value.as_str());
        push_str(&mut query, e.as_str());
        if i > 0 {
            assert(query@ =~= before + seq!['&'] + attribute(field, value@));
        } else {
            assert(all.take(1) =~= seq![all[0]]);
            assert(query@ =~= attribute(field, value@));
        }
    }
    assert(all.take(n as int) =~= all);
    let mut out = base_chars(resolved.payment_type);
    if n > 0 {
        out.push('?');
        push_all(&mut out, query.as_slice());
    }
    from_chars(out.as_slice())
}

// ---------------------------------------------------------------------------
// Laws
// ---------------------------------------------------------------------------

proof fn lemma_encoded_ascii(b: Seq<u8>)
    ensures
        is_ascii_chars(encoded_bytes(b)),
    decreases b.len(),
{
    if b.len() > 0 {
        lemma_encoded_ascii(b.skip(1));
        let e = encoded_byte(b[0]);
        assert(is_ascii_chars(e)) by {
            if !unreserved(b[0]) && b[0] != 32 {
                assert(b[0] as int / 16 < 16);
            }
        }
        let r = encoded_bytes(b.skip(1));
        assert forall|i: int| 0 <= i < (e + r).len() implies '\0' <= #[trigger] (e + r)[i] <= '\u{7f}' by {
            if i < e.len() {
                assert((e + r)[i] == e[i]);
            } else {
                assert((e + r)[i] == r[i - e.len()]);
            }
        }
    }
}

/// The bytes of an ASCII string are its characters.
proof fn lemma_ascii_bytes(s: Seq<char>)
    requires
        is_ascii_chars(s),
    ensures
        encode_utf8(s) == s.map_values(|c: char| (c as u32) as u8),
{
    vstd::utf8::is_ascii_chars_encode_utf8(s);
    assert(encode_utf8(s) =~= s.map_values(|c: char| (c as u32) as u8));
}

spec fn ascii_bytes(s: Seq<char>) -> Seq<u8> {
    s.map_values(|c: char| (c as u32) as u8)
}

proof fn lemma_decode_encoded_bytes(b: Seq<u8>)
    ensures
        decoded_bytes(ascii_bytes(encoded_bytes(b))) == b,
    decreases b.len(),
{
    if b.len() > 0 {
        let e = encoded_byte(b[0]);
        let r = encoded_bytes(b.skip(1));
        lemma_decode_encoded_bytes(b.skip(1));
        let all = ascii_bytes(e + r);
        assert(ascii_bytes(e + r) =~= ascii_bytes(e) + ascii_bytes(r));
        if unreserved(b[0]) {
            assert(all[0] == b[0]);
            assert(all.skip(1) =~= ascii_bytes(r));
        } else if b[0] == 32 {
            assert(all[0] == 43);
            assert(all.skip(1) =~= ascii_bytes(r));
        } else {
            let h = b[0] as int / 16;
            let l = b[0] as int % 16;
            assert(all[0] == 37);
            assert(all[1] == (hex_digit(h) as u32) as u8);
            assert(all[2] == (hex_digit(l) as u32) as u8);
            assert(hex_value(all[1]) == Some(h as u8));
            assert(hex_value(all[2]) == Some(l as u8));
            assert(all.skip(3) =~= ascii_bytes(r));
        }
        assert(seq![b[0]] + b.skip(1) =~= b);
    }
}

/// Decoding undoes encoding: every attribute value comes back unchanged from
/// its form-urlencoded spelling.
pub proof fn lemma_decode_encode(v: Seq<char>)
    ensures
        decoded_value(encoded_value(v)) == v,
{
    broadcast use vstd::utf8::encode_utf8_decode_utf8, vstd::utf8::encode_utf8_valid_utf8;

    let e = encoded_value(v);
    lemma_encoded_ascii(encode_utf8(v));
    lemma_ascii_bytes(e);
    lemma_decode_encoded_bytes(encode_utf8(v));
}

/// Characters an encoded value is made of: `A-Z a-z 0-9 * - . _ % +`. In
/// particular an encoded value never holds `&`, `=`, `?` or a space, so the
/// attributes of a link can be told apart.
pub open spec fn link_safe(c: char) -> bool {
    ('A' <= c && c <= 'Z') || ('a' <= c && c <= 'z') || ('0' <= c && c <= '9') || c == '*' || c
        == '-' || c == '.' || c == '_' || c == '%' || c == '+'
}

proof fn lemma_encoded_bytes_safe(b: Seq<u8>)
    ensures
        forall|i: int| 0 <= i < encoded_bytes(b).len() ==> link_safe(#[trigger] encoded_bytes(b)[i]),
    decreases b.len(),
{
    if b.len() > 0 {
        lemma_encoded_bytes_safe(b.skip(1));
        let e = encoded_byte(b[0]);
        let r = encoded_bytes(b.skip(1));
        assert forall|i: int| 0 <= i < e.len() implies link_safe(#[trigger] e[i]) by {
            if unreserved(b[0]) {
                assert(e[0] == (b[0] as u32) as char);
            } else if b[0] != 32 {
                assert(b[0] as int / 16 < 16);
            }
        }
        assert forall|i: int| 0 <= i < (e + r).len() implies link_safe(#[trigger] (e + r)[i]) by {
            if i < e.len() {
                assert((e + r)[i] == e[i]);
            } else {
                assert((e + r)[i] == r[i - e.len()]);
            }
        }
    }
}

/// Every character of an encoded attribute value is link-safe.
pub proof fn lemma_encoded_value_safe(v: Seq<char>)
    ensures
        forall|i: int| 0 <= i < encoded_value(v).len() ==> link_safe(#[trigger] encoded_value(v)[i]),
{
    lemma_encoded_bytes_safe(encode_utf8(v));
}

} // verus!
