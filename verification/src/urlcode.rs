//! Percent encoding, as cookies have it.
use vstd::prelude::*;

use crate::text;

verus! {

/// Whether the byte stands for itself: letters, digits and `-`, `.`, `_`, `~`.
pub open spec fn is_plain(b: u8) -> bool {
    ||| 48 <= b <= 57
    ||| 65 <= b <= 90
    ||| 97 <= b <= 122
    ||| b == 45
    ||| b == 46
    ||| b == 95
    ||| b == 126
}

/// The upper-case hexadecimal digit.
pub open spec fn hex_upper(d: int) -> u8 {
    if d < 10 {
        (48 + d) as u8
    } else {
        (55 + d) as u8
    }
}

/// The value of a hexadecimal digit in either case.
pub open spec fn hex_value(b: u8) -> Option<int> {
    if 48 <= b <= 57 {
        Some(b - 48)
    } else if 65 <= b <= 70 {
        Some(b - 55)
    } else if 97 <= b <= 102 {
        Some(b - 87)
    } else {
        None
    }
}

/// A byte as it is encoded: itself, or `%` and two digits.
pub open spec fn percent_byte(b: u8) -> Seq<u8> {
    if is_plain(b) {
        seq![b]
    } else {
        seq![37u8, hex_upper(b as int / 16), hex_upper(b as int % 16)]
    }
}

/// The bytes, each as it is encoded.
pub open spec fn percent_encoded(bytes: Seq<u8>) -> Seq<u8>
    decreases bytes.len(),
{
    if bytes.len() == 0 {
        Seq::empty()
    } else {
        percent_byte(bytes[0]) + percent_encoded(bytes.drop_first())
    }
}

/// Whether the bytes begin with `%` and two digits.
pub open spec fn begins_escape(bytes: Seq<u8>) -> bool {
    bytes.len() >= 3 && bytes[0] == 37 && hex_value(bytes[1]).is_some() && hex_value(
        bytes[2],
    ).is_some()
}

/// The bytes with a single byte for each `%` and two digits. A `%` without them stands for
/// itself.
pub open spec fn percent_decoded(bytes: Seq<u8>) -> Seq<u8>
    decreases bytes.len(),
{
    if bytes.len() == 0 {
        Seq::empty()
    } else if begins_escape(bytes) {
        seq![(16 * hex_value(bytes[1]).unwrap() + hex_value(bytes[2]).unwrap()) as u8]
            + percent_decoded(bytes.skip(3))
    } else {
        seq![bytes[0]] + percent_decoded(bytes.drop_first())
    }
}

/// Bytes below 128 as text.
pub open spec fn ascii_text(bytes: Seq<u8>) -> Seq<char> {
    bytes.map_values(|b: u8| b as char)
}

/// The text percent-encoded in UTF-8.
pub open spec fn encoded(s: Seq<char>) -> Seq<char> {
    ascii_text(percent_encoded(vstd::utf8::encode_utf8(s)))
}

/// The text that percent-encoded UTF-8 stands for, where it is UTF-8.
pub open spec fn decoded(s: Seq<char>) -> Option<Seq<char>> {
    let bytes = percent_decoded(vstd::utf8::encode_utf8(s));
    if vstd::utf8::valid_utf8(bytes) {
        Some(vstd::utf8::decode_utf8(bytes))
    } else {
        None
    }
}

/// `urlencoding::encode`: every byte of the text in UTF-8 is percent-encoded but for letters,
/// digits and `-`, `_`, `.`, `~`.
#[verifier::external_body]
pub(crate) fn encode(s: &str) -> (r: String)
    ensures
        r@ == encoded(s@),
{
    urlencoding::encode(s).into_owned()
}

/// `urlencoding::decode`: every `%` and two hexadecimal digits become the byte that they stand
/// for; the result is given where it is UTF-8.
#[verifier::external_body]
pub(crate) fn decode(s: &str) -> (r: Option<String>)
    ensures
        text::opt_view(r) == decoded(s@),
{
    urlencoding::decode(s).ok().map(|t| t.into_owned())
}

// ── Laws ──────────────────────────────────────────────────────────────────

proof fn lemma_hex(b: u8)
    ensures
        hex_value(hex_upper(b as int / 16)) == Some(b as int / 16),
        hex_value(hex_upper(b as int % 16)) == Some(b as int % 16),
        16 * (b as int / 16) + b as int % 16 == b,
{
}

proof fn lemma_percent_decoded(bytes: Seq<u8>)
    ensures
        percent_decoded(percent_encoded(bytes)) == bytes,
        forall|i: int|
            0 <= i < percent_encoded(bytes).len() ==> is_plain(#[trigger] percent_encoded(bytes)[i])
                || percent_encoded(bytes)[i] == 37,
    decreases bytes.len(),
{
    if bytes.len() > 0 {
        let rest = percent_encoded(bytes.drop_first());
        let all = percent_encoded(bytes);
        lemma_percent_decoded(bytes.drop_first());
        lemma_hex(bytes[0]);
        if is_plain(bytes[0]) {
            assert(all[0] == bytes[0]);
            assert(all.drop_first() =~= rest);
        } else {
            assert(all[0] == 37 && all[1] == hex_upper(bytes[0] as int / 16) && all[2] == hex_upper(
                bytes[0] as int % 16,
            ));
            assert(all.skip(3) =~= rest);
        }
        assert(percent_decoded(all) =~= bytes);
        assert forall|i: int| 0 <= i < all.len() implies is_plain(#[trigger] all[i]) || all[i]
            == 37 by {
            let n = percent_byte(bytes[0]).len() as int;
            if i >= n {
                assert(all[i] == rest[i - n]);
            }
        }
    }
}

proof fn lemma_ascii_bytes(bytes: Seq<u8>)
    requires
        forall|i: int| 0 <= i < bytes.len() ==> #[trigger] bytes[i] < 128,
    ensures
        vstd::utf8::encode_utf8(ascii_text(bytes)) == bytes,
    decreases bytes.len(),
{
    let chars = ascii_text(bytes);
    if bytes.len() > 0 {
        let rest = bytes.drop_first();
        assert forall|i: int| 0 <= i < rest.len() implies #[trigger] rest[i] < 128 by {
            assert(rest[i] == bytes[i + 1]);
        }
        lemma_ascii_bytes(rest);
        assert(chars.drop_first() =~= ascii_text(rest));
        let b = bytes[0];
        assert(b < 128);
        let u = b as u32;
        assert((u & 0x7F) as u8 == b) by (bit_vector)
            requires
                u == b as u32,
                b < 128,
        ;
        assert(chars[0] as u32 == u);
        assert(vstd::utf8::encode_utf8(chars) =~= bytes);
    }
}

/// Encoded text decodes to what was encoded.
pub proof fn law_decode_encoded(s: Seq<char>)
    ensures
        decoded(encoded(s)) == Some(s),
{
    let bytes = vstd::utf8::encode_utf8(s);
    lemma_percent_decoded(bytes);
    let enc = percent_encoded(bytes);
    assert forall|i: int| 0 <= i < enc.len() implies #[trigger] enc[i] < 128 by {
        assert(is_plain(enc[i]) || enc[i] == 37);
    }
    lemma_ascii_bytes(enc);
    vstd::utf8::encode_utf8_valid_utf8(s);
    vstd::utf8::encode_utf8_decode_utf8(s);
}

/// Encoded text holds letters, digits, `-`, `.`, `_`, `~` and `%` only, and is empty only where
/// the text is.
pub proof fn law_encoded_chars(s: Seq<char>)
    ensures
        forall|i: int|
            0 <= i < encoded(s).len() ==> {
                let c = #[trigger] encoded(s)[i];
                c < '\u{80}' && (is_plain(c as u8) || c == '%')
            },
        s.len() > 0 ==> encoded(s).len() > 0,
{
    let bytes = vstd::utf8::encode_utf8(s);
    lemma_percent_decoded(bytes);
    let enc = percent_encoded(bytes);
    assert forall|i: int| 0 <= i < encoded(s).len() implies {
        let c = #[trigger] encoded(s)[i];
        c < '\u{80}' && (is_plain(c as u8) || c == '%')
    } by {
        assert(is_plain(enc[i]) || enc[i] == 37);
    }
    if s.len() > 0 {
        assert(bytes.len() > 0);
        assert(percent_byte(bytes[0]).len() > 0);
    }
}

} // verus!
