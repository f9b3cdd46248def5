//! Percent-encoding of a name for use in a link.
//!
//! Every byte of the name's UTF-8 encoding that is not an ASCII letter or
//! digit is written as `%` and two upper-case hexadecimal digits.

use vstd::prelude::*;
use vstd::string::*;
use vstd::utf8::*;

verus! {

/// The bytes that stand for themselves: ASCII letters and digits.
pub open spec fn is_plain_byte(b: u8) -> bool {
    ||| 0x30 <= b <= 0x39
    ||| 0x41 <= b <= 0x5a
    ||| 0x61 <= b <= 0x7a
}

/// The upper-case hexadecimal digit for a value below sixteen.
pub open spec fn hex_char(n: int) -> char {
    seq!['0', '1', '2', '3', '4', '5', '6', '7', '8', '9', 'A', 'B', 'C', 'D', 'E', 'F'][n]
}

/// The value of a hexadecimal digit, upper case.
pub open spec fn hex_value(c: char) -> Option<int> {
    if '0' <= c <= '9' {
        Some(c as int - '0' as int)
    } else if 'A' <= c <= 'F' {
        Some(c as int - 'A' as int + 10)
    } else {
        None
    }
}

/// How one byte is written.
pub open spec fn encoded_byte(b: u8) -> Seq<char> {
    if is_plain_byte(b) {
        seq![b as char]
    } else {
        seq!['%', hex_char(b as int / 16), hex_char(b as int % 16)]
    }
}

/// The percent-encoding of a byte string.
pub open spec fn percent_encoded(bytes: Seq<u8>) -> Seq<char>
    decreases bytes.len(),
{
    if bytes.len() == 0 {
        Seq::empty()
    } else {
        encoded_byte(bytes[0]) + percent_encoded(bytes.drop_first())
    }
}

/// The text holds nothing but ASCII letters, digits and `%HH` triplets.
pub open spec fn is_encoded_text(text: Seq<char>) -> bool
    decreases text.len(),
{
    if text.len() == 0 {
        true
    } else if text[0] == '%' {
        &&& text.len() >= 3
        &&& hex_value(text[1]) is Some
        &&& hex_value(text[2]) is Some
        &&& is_encoded_text(text.skip(3))
    } else {
        &&& '\0' <= text[0] <= '\u{7f}'
        &&& is_plain_byte(text[0] as u8)
        &&& is_encoded_text(text.skip(1))
    }
}

/// The bytes that an encoded text stands for.
pub open spec fn percent_decoded(text: Seq<char>) -> Seq<u8>
    recommends
        is_encoded_text(text),
    decreases text.len(),
{
    if text.len() == 0 {
        Seq::empty()
    } else if text[0] == '%' {
        if text.len() >= 3 {
            seq![(16 * hex_value(text[1])->0 + hex_value(text[2])->0) as u8] + percent_decoded(
                text.skip(3),
            )
        } else {
            Seq::empty()
        }
    } else {
        seq![text[0] as u8] + percent_decoded(text.skip(1))
    }
}

proof fn lemma_encoded_byte_reads_back(b: u8, rest: Seq<char>)
    requires
        is_encoded_text(rest),
    ensures
        is_encoded_text(encoded_byte(b) + rest),
        percent_decoded(encoded_byte(b) + rest) == seq![b] + percent_decoded(rest),
{
    let text = encoded_byte(b) + rest;
    if is_plain_byte(b) {
        assert(text.skip(1) =~= rest);
        assert(text[0] == b as char);
        assert(text[0] as u8 == b);
    } else {
        assert(text.skip(3) =~= rest);
        assert(text[1] == hex_char(b as int / 16));
        assert(text[2] == hex_char(b as int % 16));
        assert(hex_value(text[1]) == Some(b as int / 16));
        assert(hex_value(text[2]) == Some(b as int % 16));
    }
}

/// An encoded byte string holds only ASCII letters, digits and `%HH`
/// triplets, and reads back as the bytes that were encoded.
pub proof fn lemma_encoding_reads_back(bytes: Seq<u8>)
    ensures
        is_encoded_text(percent_encoded(bytes)),
        percent_decoded(percent_encoded(bytes)) == bytes,
    decreases bytes.len(),
{
    if bytes.len() > 0 {
        lemma_encoding_reads_back(bytes.drop_first());
        lemma_encoded_byte_reads_back(bytes[0], percent_encoded(bytes.drop_first()));
        assert(seq![bytes[0]] + bytes.drop_first() =~= bytes);
    }
}

/// The percent-encoding of a name, as it stands in a link.
pub open spec fn encoded_name(name: Seq<char>) -> Seq<char> {
    percent_encoded(encode_utf8(name))
}

/// An encoded name holds only ASCII letters, digits and `%HH` triplets, and
/// decoding it gives the name back: first its bytes, then, read as UTF-8,
/// its characters.
pub proof fn encoded_name_round_trips(name: Seq<char>)
    ensures
        is_encoded_text(encoded_name(name)),
        percent_decoded(encoded_name(name)) == encode_utf8(name),
        valid_utf8(percent_decoded(encoded_name(name))),
        decode_utf8(percent_decoded(encoded_name(name))) == name,
{
    lemma_encoding_reads_back(encode_utf8(name));
    encode_utf8_valid_utf8(name);
    encode_utf8_decode_utf8(name);
}

/// Calls `utf8_percent_encode` of the crate `percent_encoding_rfc3986` with
/// its set `NON_ALPHANUMERIC`, and collects what it displays. By the crate's
/// source a byte is escaped if it is `%`, is not ASCII, or is in the set, and
/// the set holds every ASCII byte but letters and digits; an escape is `%`
/// and the byte in two upper-case hexadecimal digits; any other byte stands
/// for itself. That is assumed here, not proved.
#[verifier::external_body]
pub(crate) fn percent_encode(name: &str) -> (out: String)
    ensures
        out@ == encoded_name(name@),
{
    percent_encoding_rfc3986::utf8_percent_encode(name, percent_encoding_rfc3986::NON_ALPHANUMERIC)
        .to_string()
}

} // verus!
