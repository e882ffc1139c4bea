//! Percent-encoding of URL path segments (RFC 3986) and its decoding.
use vstd::prelude::*;
use vstd::utf8::{decode_utf8, encode_utf8, valid_utf8, is_ascii_chars, is_ascii_chars_encode_utf8, encode_utf8_valid_utf8, encode_utf8_decode_utf8};
use crate::text::push_char;

verus! {

/// `b` is an unreserved byte of RFC 3986: `A-Z a-z 0-9 - _ . ~`.
pub open spec fn is_unreserved(b: u8) -> bool {
    (65 <= b <= 90) || (97 <= b <= 122) || (48 <= b <= 57) || b == 45 || b == 95 || b == 46 || b
        == 126
}

/// The upper-case hexadecimal digit for `n < 16`.
pub open spec fn hex_upper(n: u8) -> char {
    if n < 10 {
        ((n + 48) as u8) as char
    } else {
        ((n + 55) as u8) as char
    }
}

/// The characters that stand for byte `b`: the byte itself when unreserved
/// (or a `/` that is kept), else `%` and two upper-case hex digits.
pub open spec fn enc_byte(b: u8, keep_slash: bool) -> Seq<char> {
    if is_unreserved(b) || (keep_slash && b == 47) {
        seq![b as char]
    } else {
        seq!['%', hex_upper(b / 16), hex_upper(b % 16)]
    }
}

/// Percent-encoding of the bytes `b`.
pub open spec fn pct_encode(b: Seq<u8>, keep_slash: bool) -> Seq<char>
    decreases b.len(),
{
    if b.len() == 0 {
        Seq::empty()
    } else {
        enc_byte(b[0], keep_slash) + pct_encode(b.drop_first(), keep_slash)
    }
}

/// Value of the hexadecimal digit byte `b`, either case.
pub open spec fn hex_value(b: u8) -> Option<u8> {
    if 48 <= b <= 57 {
        Some((b - 48) as u8)
    } else if 65 <= b <= 70 {
        Some((b - 55) as u8)
    } else if 97 <= b <= 102 {
        Some((b - 87) as u8)
    } else {
        None
    }
}

/// The byte that the two bytes after a `%` stand for, read as a base-16
/// number the way `u8::from_str_radix` reads it (an optional leading `+`).
pub open spec fn hex_pair(h: u8, l: u8) -> Option<u8> {
    if h == 43 {
        hex_value(l)
    } else {
        match (hex_value(h), hex_value(l)) {
            (Some(x), Some(y)) => Some((x * 16 + y) as u8),
            _ => None,
        }
    }
}

pub open spec fn opt_prepend(x: u8, o: Option<Seq<u8>>) -> Option<Seq<u8>> {
    match o {
        Some(v) => Some(seq![x] + v),
        None => None,
    }
}

/// Percent-decoding of the bytes `b`: `%` with two following bytes that read
/// as a base-16 number gives that byte; `None` when those two bytes are not
/// UTF-8.
pub open spec fn pct_decode(b: Seq<u8>) -> Option<Seq<u8>>
    decreases b.len(),
{
    if b.len() == 0 {
        Some(Seq::empty())
    } else if b[0] == 37 && b.len() >= 3 {
        if !valid_utf8(b.subrange(1, 3)) {
            None
        } else {
            match hex_pair(b[1], b[2]) {
                Some(v) => opt_prepend(v, pct_decode(b.skip(3))),
                None => opt_prepend(b[0], pct_decode(b.drop_first())),
            }
        }
    } else {
        opt_prepend(b[0], pct_decode(b.drop_first()))
    }
}

/// The text that percent-decoding `s` gives, when the bytes are UTF-8.
#[verifier::opaque]
pub open spec fn pct_decode_text(s: Seq<char>) -> Option<Seq<char>> {
    match pct_decode(encode_utf8(s)) {
        Some(b) => if valid_utf8(b) {
            Some(decode_utf8(b))
        } else {
            None
        },
        None => None,
    }
}

fn hex_digit_char(n: u8) -> (c: char)
    requires
        n < 16,
    ensures
        c == hex_upper(n),
{
    if n < 10 {
        ((n + 48) as u8) as char
    } else {
        ((n + 55) as u8) as char
    }
}

/// Percent-encodes the UTF-8 bytes of `s`, keeping `/` when `keep_slash`.
fn percent_encode(s: &str, keep_slash: bool) -> (r: String)
    ensures
        r@ == pct_encode(encode_utf8(s@), keep_slash),
{
    let bytes = s.as_bytes();
    let ghost b = bytes@;
    assert(b == encode_utf8(s@));
    let mut out = String::new();
    let mut i: usize = 0;
    assert(b.skip(0) =~= b);
    while i < bytes.len()
        invariant
            0 <= i <= b.len(),
            b == bytes@,
            pct_encode(b, keep_slash) == out@ + pct_encode(b.skip(i as int), keep_slash),
        decreases b.len() - i,
    {
        let x = bytes[i];
        assert(b.skip(i as int).drop_first() =~= b.skip(i + 1));
        assert(b.skip(i as int)[0] == x);
        let unreserved = (65 <= x && x <= 90) || (97 <= x && x <= 122) || (48 <= x && x <= 57) || x
            == 45 || x == 95 || x == 46 || x == 126;
        if unreserved || (keep_slash && x == 47) {
            push_char(&mut out, x as char);
        } else {
            push_char(&mut out, '%');
            push_char(&mut out, hex_digit_char(x / 16));
            push_char(&mut out, hex_digit_char(x % 16));
        }
        i += 1;
    }
    assert(b.skip(i as int) =~= Seq::<u8>::empty());
    assert(out@ =~= out@ + Seq::<char>::empty());
    out
}

/// Percent-encodes `s` for one URL path segment: every byte of its UTF-8
/// form other than `A-Z a-z 0-9 - _ . ~` becomes `%XX` (upper-case hex).
pub fn urlencoding_encode(s: &str) -> (r: String)
    ensures
        r@ == pct_encode(encode_utf8(s@), false),
{
    percent_encode(s, false)
}

/// Percent-encodes each `/`-separated segment of `path`, keeping the `/`.
pub fn encode_segments(path: &str) -> (r: String)
    ensures
        r@ == pct_encode(encode_utf8(path@), true),
{
    percent_encode(path, true)
}

/// Whether the bytes `b` are UTF-8 (`std::str::from_utf8`).
/// Trusted: true exactly for valid UTF-8, as std documents.
#[verifier::external_body]
fn is_utf8(b: &[u8]) -> (r: bool)
    ensures
        r == valid_utf8(b@),
{
    std::str::from_utf8(b).is_ok()
}

/// The text whose UTF-8 form is `b` (`String::from_utf8`).
/// Trusted: `Some` exactly for valid UTF-8, holding the decoded characters.
#[verifier::external_body]
fn string_from_utf8(b: Vec<u8>) -> (r: Option<String>)
    ensures
        r is Some <==> valid_utf8(b@),
        r matches Some(s) ==> s@ == decode_utf8(b@),
{
    String::from_utf8(b).ok()
}

fn hex_val(b: u8) -> (r: Option<u8>)
    ensures
        r == hex_value(b),
{
    if 48 <= b && b <= 57 {
        Some(b - 48)
    } else if 65 <= b && b <= 70 {
        Some(b - 55)
    } else if 97 <= b && b <= 102 {
        Some(b - 87)
    } else {
        None
    }
}

fn hex_pair_value(h: u8, l: u8) -> (r: Option<u8>)
    ensures
        r == hex_pair(h, l),
{
    if h == 43 {
        hex_val(l)
    } else {
        match (hex_val(h), hex_val(l)) {
            (Some(x), Some(y)) => Some(x * 16 + y),
            _ => None,
        }
    }
}

/// Decodes `%XX` escapes in `s` (a `+` may stand for the first digit, as
/// `u8::from_str_radix` reads it); `None` when the two bytes after a `%` are
/// not UTF-8 or the decoded bytes are not UTF-8.
pub fn urlencoding_decode(s: &str) -> (r: Option<String>)
    ensures
        r.deep_view() == pct_decode_text(s@),
{
    let bytes = s.as_bytes();
    let ghost b = bytes@;
    let mut out: Vec<u8> = Vec::new();
    let mut i: usize = 0;
    assert(b.skip(0) =~= b);
    while i < bytes.len()
        invariant
            0 <= i <= b.len(),
            b == bytes@,
            b == encode_utf8(s@),
            pct_decode(b) == match pct_decode(b.skip(i as int)) {
                Some(rest) => Some(out@ + rest),
                None => None,
            },
        decreases b.len() - i,
    {
        let ghost t = b.skip(i as int);
        assert(t[0] == bytes[i as int]);
        if bytes[i] == 37 && bytes.len() - i > 2 {
            let pair = [bytes[i + 1], bytes[i + 2]];
            assert(pair@ =~= t.subrange(1, 3));
            if !is_utf8(&pair) {
                reveal(pct_decode_text);
                return None;
            }
            match hex_pair_value(bytes[i + 1], bytes[i + 2]) {
                Some(v) => {
                    assert(t.skip(3) =~= b.skip(i + 3));
                    let ghost before = out@;
                    out.push(v);
                    assert(out@ =~= before + seq![v]);
                    assert(forall|rest: Seq<u8>| before + (seq![v] + rest) =~= out@ + rest);
                    i += 3;
                    continue ;
                },
                None => {},
            }
        }
        assert(t.drop_first() =~= b.skip(i + 1));
        let ghost before = out@;
        out.push(bytes[i]);
        assert(forall|rest: Seq<u8>| before + (seq![bytes@[i as int]] + rest) =~= out@ + rest);
        i += 1;
    }
    assert(b.skip(i as int) =~= Seq::<u8>::empty());
    assert(out@ + Seq::<u8>::empty() =~= out@);
    reveal(pct_decode_text);
    string_from_utf8(out)
}

/// The bytes of the encoding of byte `b`.
spec fn enc_byte_bytes(b: u8, keep_slash: bool) -> Seq<u8> {
    if is_unreserved(b) || (keep_slash && b == 47) {
        seq![b]
    } else {
        seq![37u8, hex_upper(b / 16) as u8, hex_upper(b % 16) as u8]
    }
}

spec fn enc_bytes(b: Seq<u8>, keep_slash: bool) -> Seq<u8>
    decreases b.len(),
{
    if b.len() == 0 {
        Seq::empty()
    } else {
        enc_byte_bytes(b[0], keep_slash) + enc_bytes(b.drop_first(), keep_slash)
    }
}

proof fn lemma_hex_upper(n: u8)
    requires
        n < 16,
    ensures
        '0' <= hex_upper(n) <= '\u{7f}',
        hex_upper(n) as u8 != 43,
        hex_value(hex_upper(n) as u8) == Some(n),
{
}

proof fn lemma_enc_ascii(b: Seq<u8>, keep_slash: bool)
    ensures
        is_ascii_chars(pct_encode(b, keep_slash)),
        pct_encode(b, keep_slash).len() == enc_bytes(b, keep_slash).len(),
        forall|k: int|
            0 <= k < pct_encode(b, keep_slash).len() ==> pct_encode(b, keep_slash)[k] as u8
                == enc_bytes(b, keep_slash)[k],
    decreases b.len(),
{
    if b.len() > 0 {
        lemma_enc_ascii(b.drop_first(), keep_slash);
        lemma_hex_upper(b[0] / 16);
        lemma_hex_upper(b[0] % 16);
        let head = enc_byte(b[0], keep_slash);
        let rest = pct_encode(b.drop_first(), keep_slash);
        let hb = enc_byte_bytes(b[0], keep_slash);
        let rb = enc_bytes(b.drop_first(), keep_slash);
        assert(pct_encode(b, keep_slash) == head + rest);
        assert(enc_bytes(b, keep_slash) == hb + rb);
        assert forall|k: int| 0 <= k < (head + rest).len() implies '\0' <= #[trigger] (head
            + rest)[k] <= '\u{7f}' && (head + rest)[k] as u8 == (hb + rb)[k] by {
            if k >= head.len() {
                assert((head + rest)[k] == rest[k - head.len()]);
                assert((hb + rb)[k] == rb[k - hb.len()]);
            }
        }
    }
}

/// `x` in front of the decoded bytes, when decoding succeeded.
pub open spec fn opt_concat(x: Seq<u8>, o: Option<Seq<u8>>) -> Option<Seq<u8>> {
    match o {
        Some(v) => Some(x + v),
        None => None,
    }
}

proof fn lemma_dec_enc_then(b: Seq<u8>, keep_slash: bool, y: Seq<u8>)
    ensures
        pct_decode(enc_bytes(b, keep_slash) + y) == opt_concat(b, pct_decode(y)),
    decreases b.len(),
{
    if b.len() == 0 {
        assert(enc_bytes(b, keep_slash) + y =~= y);
        match pct_decode(y) {
            Some(v) => assert(b + v =~= v),
            None => {},
        }
    } else {
        lemma_dec_enc_then(b.drop_first(), keep_slash, y);
        let e = enc_bytes(b, keep_slash) + y;
        let hb = enc_byte_bytes(b[0], keep_slash);
        let rb = enc_bytes(b.drop_first(), keep_slash) + y;
        assert(enc_bytes(b, keep_slash) == hb + enc_bytes(b.drop_first(), keep_slash));
        assert(e =~= hb + rb);
        if is_unreserved(b[0]) || (keep_slash && b[0] == 47) {
            assert(e[0] == b[0]);
            assert(e.drop_first() =~= rb);
        } else {
            let h = hex_upper(b[0] / 16);
            let l = hex_upper(b[0] % 16);
            lemma_hex_upper(b[0] / 16);
            lemma_hex_upper(b[0] % 16);
            assert(e[0] == 37);
            assert(e.subrange(1, 3) =~= seq![h as u8, l as u8]);
            is_ascii_chars_encode_utf8(seq![h, l]);
            encode_utf8_valid_utf8(seq![h, l]);
            assert(encode_utf8(seq![h, l]) =~= seq![h as u8, l as u8]);
            assert(hex_pair(h as u8, l as u8) == Some(b[0]));
            assert(e.skip(3) =~= rb);
        }
        match pct_decode(y) {
            Some(v) => {
                assert(seq![b[0]] + (b.drop_first() + v) =~= b + v);
            },
            None => {},
        }
    }
}

proof fn lemma_dec_enc(b: Seq<u8>, keep_slash: bool)
    ensures
        pct_decode(enc_bytes(b, keep_slash)) == Some(b),
{
    lemma_dec_enc_then(b, keep_slash, Seq::empty());
    assert(enc_bytes(b, keep_slash) + Seq::<u8>::empty() =~= enc_bytes(b, keep_slash));
    assert(b + Seq::<u8>::empty() =~= b);
}

/// Bytes without `%` decode to themselves, whatever follows them.
pub proof fn lemma_dec_plain_then(x: Seq<u8>, y: Seq<u8>)
    requires
        forall|i: int| 0 <= i < x.len() ==> #[trigger] x[i] != 37,
    ensures
        pct_decode(x + y) == opt_concat(x, pct_decode(y)),
    decreases x.len(),
{
    if x.len() == 0 {
        assert(x + y =~= y);
        match pct_decode(y) {
            Some(v) => assert(x + v =~= v),
            None => {},
        }
    } else {
        let t = x.drop_first();
        assert forall|i: int| 0 <= i < t.len() implies #[trigger] t[i] != 37 by {
            assert(t[i] == x[i + 1]);
        }
        lemma_dec_plain_then(t, y);
        assert((x + y)[0] == x[0]);
        assert((x + y).drop_first() =~= t + y);
        match pct_decode(y) {
            Some(v) => {
                assert(seq![x[0]] + (t + v) =~= x + v);
            },
            None => {},
        }
    }
}

/// The UTF-8 form of joined texts is the joined UTF-8 forms.
pub proof fn lemma_encode_utf8_concat(a: Seq<char>, b: Seq<char>)
    ensures
        encode_utf8(a + b) == encode_utf8(a) + encode_utf8(b),
    decreases a.len(),
{
    if a.len() == 0 {
        assert(a + b =~= b);
        assert(encode_utf8(a) + encode_utf8(b) =~= encode_utf8(b));
    } else {
        lemma_encode_utf8_concat(a.drop_first(), b);
        assert((a + b).drop_first() =~= a.drop_first() + b);
        assert((a + b)[0] == a[0]);
    }
}

/// The UTF-8 form of a percent-encoded text is the encoded bytes.
proof fn lemma_encoded_bytes(b: Seq<u8>, keep_slash: bool)
    ensures
        encode_utf8(pct_encode(b, keep_slash)) == enc_bytes(b, keep_slash),
        is_ascii_chars(pct_encode(b, keep_slash)),
{
    lemma_enc_ascii(b, keep_slash);
    is_ascii_chars_encode_utf8(pct_encode(b, keep_slash));
    assert(encode_utf8(pct_encode(b, keep_slash)) =~= enc_bytes(b, keep_slash));
}

/// Decoding a `%`-free ASCII prefix, `/`, an encoded segment path, `/` and
/// another gives back the plain text.
pub proof fn lemma_decode_joined(base: Seq<char>, first: Seq<char>, second: Seq<char>)
    requires
        is_ascii_chars(base),
        forall|i: int| 0 <= i < base.len() ==> #[trigger] base[i] != '%',
    ensures
        pct_decode_text(base + seq!['/'] + pct_encode(encode_utf8(first), true) + seq!['/'] + pct_encode(
            encode_utf8(second),
            true,
        )) == Some(base + seq!['/'] + first + seq!['/'] + second),
{
    let e1 = pct_encode(encode_utf8(first), true);
    let e2 = pct_encode(encode_utf8(second), true);
    let slash = seq!['/'];
    let href = base + slash + e1 + slash + e2;
    is_ascii_chars_encode_utf8(base);
    is_ascii_chars_encode_utf8(slash);
    lemma_encoded_bytes(encode_utf8(first), true);
    lemma_encoded_bytes(encode_utf8(second), true);
    lemma_encode_utf8_concat(base + slash + e1 + slash, e2);
    lemma_encode_utf8_concat(base + slash + e1, slash);
    lemma_encode_utf8_concat(base + slash, e1);
    lemma_encode_utf8_concat(base, slash);
    let bb = encode_utf8(base);
    let sb = encode_utf8(slash);
    assert(sb =~= seq![47u8]);
    let b1 = enc_bytes(encode_utf8(first), true);
    let b2 = enc_bytes(encode_utf8(second), true);
    assert(encode_utf8(href) =~= bb + (sb + (b1 + (sb + b2))));
    assert forall|i: int| 0 <= i < bb.len() implies #[trigger] bb[i] != 37 by {
        assert(bb[i] == base[i] as u8);
    }
    lemma_dec_enc(encode_utf8(second), true);
    lemma_dec_plain_then(sb, b2);
    lemma_dec_enc_then(encode_utf8(first), true, sb + b2);
    lemma_dec_plain_then(sb, b1 + (sb + b2));
    lemma_dec_plain_then(bb, sb + (b1 + (sb + b2)));
    let plain = base + slash + first + slash + second;
    lemma_encode_utf8_concat(base + slash + first + slash, second);
    lemma_encode_utf8_concat(base + slash + first, slash);
    lemma_encode_utf8_concat(base + slash, first);
    lemma_encode_utf8_concat(base, slash);
    let decoded = bb + (sb + (encode_utf8(first) + (sb + encode_utf8(second))));
    assert(pct_decode(encode_utf8(href)) == Some(decoded));
    assert(decoded =~= encode_utf8(plain));
    encode_utf8_valid_utf8(plain);
    encode_utf8_decode_utf8(plain);
    reveal(pct_decode_text);
}

/// Percent-decoding gives back what percent-encoding was given: for every
/// text `s`, decoding `urlencoding_encode(s)` (or `encode_segments(s)`)
/// yields `s`.
pub proof fn law_percent_roundtrip(s: Seq<char>, keep_slash: bool)
    ensures
        pct_decode_text(pct_encode(encode_utf8(s), keep_slash)) == Some(s),
{
    let b = encode_utf8(s);
    let e = pct_encode(b, keep_slash);
    lemma_enc_ascii(b, keep_slash);
    is_ascii_chars_encode_utf8(e);
    assert(encode_utf8(e) =~= enc_bytes(b, keep_slash));
    lemma_dec_enc(b, keep_slash);
    reveal(pct_decode_text);
    encode_utf8_valid_utf8(s);
    encode_utf8_decode_utf8(s);
}

} // verus!
