//! Plain-text building blocks shared by the configuration parser, the
//! envelope decoder and identifier formatting: UTF-8 text from bytes,
//! ASCII byte/char conversion and decimal rendering of port numbers.

use vstd::prelude::*;
use vstd::utf8::char_u32_cast;
use vstd::utf8::decode_first_codepoint;
use vstd::utf8::decode_utf8;
use vstd::utf8::is_leading_byte_width_1;
use vstd::utf8::pop_first_scalar;
use vstd::utf8::valid_first_scalar;
use vstd::utf8::valid_leading_and_continuation_bytes_first_codepoint;
use vstd::utf8::valid_utf8;

verus! {

/// The characters spelled by a sequence of ASCII bytes, one per byte.
pub open spec fn ascii_chars(s: Seq<u8>) -> Seq<char> {
    s.map_values(|b: u8| b as char)
}

/// The decimal digits of `n`, most significant first, as ASCII bytes
/// with no leading zero (`0` itself is the single byte `0x30`).
pub open spec fn spec_dec_digits(n: nat) -> Seq<u8>
    decreases n,
{
    if n < 10 {
        seq![(0x30 + n) as u8]
    } else {
        spec_dec_digits(n / 10).push((0x30 + n % 10) as u8)
    }
}

/// The normalized `"host:port"` identifier for one printer endpoint.
pub open spec fn spec_identifier(host: Seq<char>, port: u16) -> Seq<char> {
    host + seq![':'] + ascii_chars(spec_dec_digits(port as nat))
}

/// The decimal digits of `n`, most significant first.
pub fn dec_digits(n: u16) -> (r: Vec<u8>)
    ensures
        r@ == spec_dec_digits(n as nat),
    decreases n,
{
    if n < 10 {
        let mut v: Vec<u8> = Vec::new();
        v.push(0x30 + n as u8);
        proof {
            assert(v@ =~= spec_dec_digits(n as nat));
        }
        v
    } else {
        let mut v = dec_digits(n / 10);
        v.push(0x30 + (n % 10) as u8);
        v
    }
}

/// Every decimal digit byte is in the ASCII range.
pub proof fn lemma_dec_digits_ascii(n: nat)
    ensures
        forall|i: int| 0 <= i < spec_dec_digits(n).len() ==> #[trigger] spec_dec_digits(
            n,
        )[i] < 0x80,
    decreases n,
{
    if n < 10 {
        assert(spec_dec_digits(n) =~= seq![(0x30 + n) as u8]);
    } else {
        lemma_dec_digits_ascii(n / 10);
        assert(spec_dec_digits(n) =~= spec_dec_digits(n / 10).push((0x30 + n % 10) as u8));
        assert forall|i: int| 0 <= i < spec_dec_digits(n).len() implies #[trigger] spec_dec_digits(
            n,
        )[i] < 0x80 by {
            if i < spec_dec_digits(n / 10).len() {
                assert(spec_dec_digits(n)[i] == spec_dec_digits(n / 10)[i]);
            }
        }
    }
}

/// ASCII bytes are a valid UTF-8 encoding and decode one char per byte,
/// each with the byte's own code point.
pub proof fn lemma_ascii_utf8(bytes: Seq<u8>)
    requires
        forall|i: int| 0 <= i < bytes.len() ==> #[trigger] bytes[i] < 0x80,
    ensures
        valid_utf8(bytes),
        decode_utf8(bytes) == ascii_chars(bytes),
    decreases bytes.len(),
{
    if bytes.len() > 0 {
        let b = bytes[0];
        assert(b & 0x7f == b) by (bit_vector)
            requires
                b < 0x80,
        ;
        assert(is_leading_byte_width_1(b));
        assert(valid_leading_and_continuation_bytes_first_codepoint(bytes));
        assert(decode_first_codepoint(bytes) == b as u32);
        assert(valid_first_scalar(bytes));
        assert(pop_first_scalar(bytes) =~= bytes.drop_first());
        assert(forall|i: int|
            0 <= i < bytes.drop_first().len() ==> #[trigger] bytes.drop_first()[i] < 0x80);
        lemma_ascii_utf8(bytes.drop_first());
        assert(valid_utf8(bytes));
        assert((b as char) as u32 == b as u32);
        char_u32_cast(b as char, b as u32);
        assert(decode_utf8(bytes) =~= ascii_chars(bytes));
    } else {
        assert(decode_utf8(bytes) =~= ascii_chars(bytes));
    }
}

/// Relies on alloc's `String::from_utf8`: `Ok` exactly on a valid UTF-8
/// encoding, returning the text those bytes encode.
#[verifier::external_body]
pub(crate) fn string_from_utf8(bytes: Vec<u8>) -> (r: Option<String>)
    ensures
        match r {
            Some(s) => valid_utf8(bytes@) && s@ == decode_utf8(bytes@),
            None => !valid_utf8(bytes@),
        },
{
    match String::from_utf8(bytes) {
        Ok(s) => Some(s),
        Err(_) => None,
    }
}

/// Builds the text of a sequence of ASCII bytes.
pub(crate) fn ascii_string(bytes: Vec<u8>) -> (r: String)
    requires
        forall|i: int| 0 <= i < bytes@.len() ==> bytes@[i] < 0x80,
    ensures
        r@ == ascii_chars(bytes@),
{
    proof {
        lemma_ascii_utf8(bytes@);
    }
    match string_from_utf8(bytes) {
        Some(s) => s,
        None => {
            proof {
                assert(false);
            }
            String::new()
        },
    }
}

/// Builds the `"host:port"` identifier string for one endpoint.
pub fn identifier_string(host: &String, port: u16) -> (r: String)
    ensures
        r@ == spec_identifier(host@, port),
{
    let mut r = host.clone();
    r.append(":");
    let digits = dec_digits(port);
    proof {
        lemma_dec_digits_ascii(port as nat);
    }
    let digit_str = ascii_string(digits);
    r.append(digit_str.as_str());
    proof {
        reveal_strlit(":");
        assert(r@ =~= spec_identifier(host@, port));
    }
    r
}

} // verus!
