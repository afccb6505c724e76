//! The envelope decoder. An inbound payload is UTF-8 text holding a JSON
//! object with the fields `host` (string), `port` (integer, 0..=65535)
//! and `message` (array of byte values), in any order; members under other
//! names are skipped, each field may appear once. Decoding is
//! all-or-nothing: the whole grammar is stated by `spec_decode`, and
//! `MqttPrintMessage::decode` returns `Ok` exactly on the payloads that
//! grammar accepts.

use vstd::prelude::*;
use vstd::utf8::decode_utf8;
use vstd::utf8::valid_utf8;

use vstd::slice::slice_to_vec;

use crate::text::identifier_string;
use crate::text::spec_identifier;
use crate::text::string_from_utf8;

verus! {

/// JSON insignificant whitespace: space, tab, line feed, carriage return.
pub open spec fn is_json_ws(b: u8) -> bool {
    b == 0x20 || b == 0x09 || b == 0x0a || b == 0x0d
}

/// A byte that stands for itself inside a string value: anything but a
/// control byte, the closing quote and the backslash.
pub open spec fn is_raw_string_byte(b: u8) -> bool {
    b >= 0x20 && b != 0x22 && b != 0x5c
}

/// An ASCII decimal digit.
pub open spec fn is_digit_byte(b: u8) -> bool {
    0x30 <= b <= 0x39
}

/// First index at or after `i` holding a non-whitespace byte (or the end).
pub open spec fn spec_skip_ws(s: Seq<u8>, i: int) -> int
    decreases s.len() - i,
{
    if i < s.len() && is_json_ws(s[i]) {
        spec_skip_ws(s, i + 1)
    } else {
        i
    }
}

/// First index at or after `i` holding a non-digit byte (or the end).
pub open spec fn spec_digits_end(s: Seq<u8>, i: int) -> int
    decreases s.len() - i,
{
    if i < s.len() && is_digit_byte(s[i]) {
        spec_digits_end(s, i + 1)
    } else {
        i
    }
}

/// The number spelled by a sequence of ASCII digits, most significant first.
pub open spec fn seq_value(d: Seq<u8>) -> int
    decreases d.len(),
{
    if d.len() == 0 {
        0
    } else {
        seq_value(d.drop_last()) * 10 + (d.last() - 0x30)
    }
}

/// The byte a single-character escape stands for, for the byte following
/// the backslash.
pub open spec fn spec_escape_byte(b: u8) -> Option<u8> {
    if b == 0x22 {  // \"
        Some(0x22u8)
    } else if b == 0x5c {  // backslash
        Some(0x5cu8)
    } else if b == 0x2f {  // \/
        Some(0x2fu8)
    } else if b == 0x62 {  // \b
        Some(0x08u8)
    } else if b == 0x66 {  // \f
        Some(0x0cu8)
    } else if b == 0x6e {  // \n
        Some(0x0au8)
    } else if b == 0x72 {  // \r
        Some(0x0du8)
    } else if b == 0x74 {  // \t
        Some(0x09u8)
    } else {
        None
    }
}

/// The value of a hexadecimal digit byte, upper or lower case.
pub open spec fn hex_digit_value(b: u8) -> Option<u8> {
    if 0x30 <= b <= 0x39 {
        Some((b - 0x30) as u8)
    } else if 0x61 <= b <= 0x66 {
        Some((b - 0x57) as u8)
    } else if 0x41 <= b <= 0x46 {
        Some((b - 0x37) as u8)
    } else {
        None
    }
}

/// The UTF-8 encoding of a code point below 0x10000.
pub open spec fn utf8_encoding(c: int) -> Seq<u8> {
    if c < 0x80 {
        seq![c as u8]
    } else if c < 0x800 {
        seq![(0xc0 + c / 0x40) as u8, (0x80 + c % 0x40) as u8]
    } else {
        seq![
            (0xe0 + c / 0x1000) as u8,
            (0x80 + (c / 0x40) % 0x40) as u8,
            (0x80 + c % 0x40) as u8,
        ]
    }
}

/// The content of a string value from `i` (just past the opening quote)
/// to its closing quote: raw bytes stand for themselves, an escape for
/// the escaped character's encoding. A `\u` escape of a surrogate code
/// point is rejected. Returns the unescaped content bytes and the index
/// just past the closing quote.
pub open spec fn spec_string_body(s: Seq<u8>, i: int) -> Option<(Seq<u8>, int)>
    decreases s.len() - i,
{
    if 0 <= i < s.len() {
        if s[i] == 0x22 {  // closing '"'
            Some((Seq::empty(), i + 1))
        } else if s[i] == 0x5c {  // escape
            if i + 2 <= s.len() && spec_escape_byte(s[i + 1]) is Some {
                match spec_string_body(s, i + 2) {
                    Some(p) => Some((seq![spec_escape_byte(s[i + 1])->Some_0] + p.0, p.1)),
                    None => None,
                }
            } else if i + 6 <= s.len() && s[i + 1] == 0x75 && hex_digit_value(s[i + 2]) is Some
                && hex_digit_value(s[i + 3]) is Some && hex_digit_value(s[i + 4]) is Some
                && hex_digit_value(s[i + 5]) is Some {  // \uXXXX
                let c = hex_digit_value(s[i + 2])->Some_0 * 0x1000 + hex_digit_value(
                    s[i + 3],
                )->Some_0 * 0x100 + hex_digit_value(s[i + 4])->Some_0 * 0x10 + hex_digit_value(
                    s[i + 5],
                )->Some_0;
                if 0xd800 <= c <= 0xdfff {
                    None
                } else {
                    match spec_string_body(s, i + 6) {
                        Some(p) => Some((utf8_encoding(c as int) + p.0, p.1)),
                        None => None,
                    }
                }
            } else {
                None
            }
        } else if is_raw_string_byte(s[i]) {
            match spec_string_body(s, i + 1) {
                Some(p) => Some((seq![s[i]] + p.0, p.1)),
                None => None,
            }
        } else {
            None
        }
    } else {
        None
    }
}

/// A string value: an opening quote, content, a closing quote.
pub open spec fn spec_parse_string(s: Seq<u8>, i: int) -> Option<(Seq<u8>, int)> {
    if 0 <= i < s.len() && s[i] == 0x22 {
        spec_string_body(s, i + 1)
    } else {
        None
    }
}

/// An unsigned JSON integer: one or more digits, no leading zero.
/// Returns the value and the index just past the digits.
pub open spec fn spec_parse_uint(s: Seq<u8>, i: int) -> Option<(int, int)> {
    if i < s.len() && is_digit_byte(s[i]) {
        let e = spec_digits_end(s, i);
        if s[i] == 0x30 && e != i + 1 {
            None
        } else {
            Some((seq_value(s.subrange(i, e)), e))
        }
    } else {
        None
    }
}

/// One or more comma-separated byte values, then the closing bracket.
/// `i` stands on the first digit of the first element.
pub open spec fn spec_parse_elems(s: Seq<u8>, i: int) -> Option<(Seq<u8>, int)>
    decreases s.len() - i,
{
    match spec_parse_uint(s, i) {
        Some(p) => if 0 <= p.0 <= 255 {
            let k = spec_skip_ws(s, p.1);
            if k < s.len() && s[k] == 0x2c {  // ','
                let m = spec_skip_ws(s, k + 1);
                if i < m <= s.len() {
                    match spec_parse_elems(s, m) {
                        Some(q) => Some((seq![p.0 as u8] + q.0, q.1)),
                        None => None,
                    }
                } else {
                    None
                }
            } else if k < s.len() && s[k] == 0x5d {  // ']'
                Some((seq![p.0 as u8], k + 1))
            } else {
                None
            }
        } else {
            None
        },
        None => None,
    }
}

/// A byte array: `[`, optional whitespace, either `]` or elements.
pub open spec fn spec_parse_array(s: Seq<u8>, i: int) -> Option<(Seq<u8>, int)> {
    if i < s.len() && s[i] == 0x5b {  // '['
        let j = spec_skip_ws(s, i + 1);
        if j < s.len() && s[j] == 0x5d {  // ']'
            Some((Seq::empty(), j + 1))
        } else {
            spec_parse_elems(s, j)
        }
    } else {
        None
    }
}

/// The extent of a JSON number: optional minus, an integer part without a
/// leading zero, optional fraction, optional exponent. Returns the index
/// just past it.
pub open spec fn spec_skip_number(s: Seq<u8>, i: int) -> Option<int> {
    let a = if i < s.len() && s[i] == 0x2d {  // '-'
        i + 1
    } else {
        i
    };
    if a < s.len() && is_digit_byte(s[a]) && !(s[a] == 0x30 && spec_digits_end(s, a) != a + 1) {
        let b = spec_digits_end(s, a);
        let c = if b < s.len() && s[b] == 0x2e {  // '.'
            if b + 1 < s.len() && is_digit_byte(s[b + 1]) {
                spec_digits_end(s, b + 1)
            } else {
                -1
            }
        } else {
            b
        };
        if c < 0 {
            None
        } else {
            let d = if c < s.len() && (s[c] == 0x65 || s[c] == 0x45) {  // e E
                let e0 = if c + 1 < s.len() && (s[c + 1] == 0x2b || s[c + 1] == 0x2d) {
                    c + 2
                } else {
                    c + 1
                };
                if e0 < s.len() && is_digit_byte(s[e0]) {
                    spec_digits_end(s, e0)
                } else {
                    -1
                }
            } else {
                c
            };
            if d < 0 {
                None
            } else {
                Some(d)
            }
        }
    } else {
        None
    }
}

/// The extent of any JSON value at `i`: a string, number, object, array,
/// `true`, `false` or `null`. Used to skip a member the envelope does not
/// name. Returns the index just past the value.
pub open spec fn spec_skip_value(s: Seq<u8>, i: int) -> Option<int>
    decreases s.len() - i, 1nat,
{
    if 0 <= i < s.len() {
        if s[i] == 0x22 {  // string
            match spec_parse_string(s, i) {
                Some(p) => Some(p.1),
                None => None,
            }
        } else if s[i] == 0x5b {  // array
            let j = spec_skip_ws(s, i + 1);
            if j < s.len() && s[j] == 0x5d {
                Some(j + 1)
            } else if i < j <= s.len() {
                spec_skip_array_items(s, j)
            } else {
                None
            }
        } else if s[i] == 0x7b {  // object
            let j = spec_skip_ws(s, i + 1);
            if j < s.len() && s[j] == 0x7d {
                Some(j + 1)
            } else if i < j <= s.len() {
                spec_skip_object_members(s, j)
            } else {
                None
            }
        } else if s[i] == 0x74 {  // true
            if i + 4 <= s.len() && s[i + 1] == 0x72 && s[i + 2] == 0x75 && s[i + 3] == 0x65 {
                Some(i + 4)
            } else {
                None
            }
        } else if s[i] == 0x66 {  // false
            if i + 5 <= s.len() && s[i + 1] == 0x61 && s[i + 2] == 0x6c && s[i + 3] == 0x73 && s[i
                + 4] == 0x65 {
                Some(i + 5)
            } else {
                None
            }
        } else if s[i] == 0x6e {  // null
            if i + 4 <= s.len() && s[i + 1] == 0x75 && s[i + 2] == 0x6c && s[i + 3] == 0x6c {
                Some(i + 4)
            } else {
                None
            }
        } else {
            spec_skip_number(s, i)
        }
    } else {
        None
    }
}

/// The items of a skipped array, `i` at the first item's first byte.
pub open spec fn spec_skip_array_items(s: Seq<u8>, i: int) -> Option<int>
    decreases s.len() - i, 2nat,
{
    match spec_skip_value(s, i) {
        Some(e) => {
            let k = spec_skip_ws(s, e);
            if k < s.len() && s[k] == 0x2c {
                let m = spec_skip_ws(s, k + 1);
                if i < m <= s.len() {
                    spec_skip_array_items(s, m)
                } else {
                    None
                }
            } else if k < s.len() && s[k] == 0x5d {
                Some(k + 1)
            } else {
                None
            }
        },
        None => None,
    }
}

/// The members of a skipped object, `i` at the first key's opening quote.
pub open spec fn spec_skip_object_members(s: Seq<u8>, i: int) -> Option<int>
    decreases s.len() - i, 2nat,
{
    match spec_parse_string(s, i) {
        Some(kp) => {
            let k = spec_skip_ws(s, kp.1);
            if k < s.len() && s[k] == 0x3a {
                let m = spec_skip_ws(s, k + 1);
                if i < m <= s.len() {
                    match spec_skip_value(s, m) {
                        Some(e) => {
                            let k2 = spec_skip_ws(s, e);
                            if k2 < s.len() && s[k2] == 0x2c {
                                let m2 = spec_skip_ws(s, k2 + 1);
                                if i < m2 <= s.len() {
                                    spec_skip_object_members(s, m2)
                                } else {
                                    None
                                }
                            } else if k2 < s.len() && s[k2] == 0x7d {
                                Some(k2 + 1)
                            } else {
                                None
                            }
                        },
                        None => None,
                    }
                } else {
                    None
                }
            } else {
                None
            }
        },
        None => None,
    }
}

/// The bytes of the field name `host`.
pub open spec fn host_key() -> Seq<u8> {
    seq![0x68u8, 0x6fu8, 0x73u8, 0x74u8]
}

/// The bytes of the field name `port`.
pub open spec fn port_key() -> Seq<u8> {
    seq![0x70u8, 0x6fu8, 0x72u8, 0x74u8]
}

/// The bytes of the field name `message`.
pub open spec fn message_key() -> Seq<u8> {
    seq![0x6du8, 0x65u8, 0x73u8, 0x73u8, 0x61u8, 0x67u8, 0x65u8]
}

/// A fully decoded envelope: destination and opaque payload. The host is
/// held as the UTF-8 bytes of its unescaped text.
pub struct Envelope {
    pub host: Seq<u8>,
    pub port: u16,
    pub message: Seq<u8>,
}

/// After a member's value: whitespace, then either `}` (the three fields
/// must all have been seen) or `,` and the next member.
pub open spec fn spec_after_value(
    s: Seq<u8>,
    j: int,
    ho: Option<Seq<u8>>,
    po: Option<u16>,
    mo: Option<Seq<u8>>,
) -> Option<(Envelope, int)>
    decreases s.len() - j,
{
    let k = spec_skip_ws(s, j);
    if k < s.len() && s[k] == 0x7d {  // '}'
        match (ho, po, mo) {
            (Some(h), Some(p), Some(m)) => Some(
                (Envelope { host: h, port: p, message: m }, k + 1),
            ),
            _ => None,
        }
    } else if k < s.len() && s[k] == 0x2c {  // ','
        let m = spec_skip_ws(s, k + 1);
        if j < m <= s.len() {
            spec_parse_members(s, m, ho, po, mo)
        } else {
            None
        }
    } else {
        None
    }
}

/// One member: a key string, `:`, and a value. A named field takes the
/// value the envelope calls for and may appear once; a member under any
/// other key is skipped as an arbitrary JSON value.
/// `i` stands on the opening quote of the key.
pub open spec fn spec_parse_members(
    s: Seq<u8>,
    i: int,
    ho: Option<Seq<u8>>,
    po: Option<u16>,
    mo: Option<Seq<u8>>,
) -> Option<(Envelope, int)>
    decreases s.len() - i,
{
    match spec_parse_string(s, i) {
        Some(kp) => {
            let k = spec_skip_ws(s, kp.1);
            if k < s.len() && s[k] == 0x3a {  // ':'
                let m = spec_skip_ws(s, k + 1);
                if kp.0 == host_key() {
                    if ho is None {
                        match spec_parse_string(s, m) {
                            Some(vp) => if i < vp.1 <= s.len() {
                                spec_after_value(s, vp.1, Some(vp.0), po, mo)
                            } else {
                                None
                            },
                            None => None,
                        }
                    } else {
                        None
                    }
                } else if kp.0 == port_key() {
                    if po is None {
                        match spec_parse_uint(s, m) {
                            Some(vp) => if 0 <= vp.0 <= 65535 && i < vp.1 <= s.len() {
                                spec_after_value(s, vp.1, ho, Some(vp.0 as u16), mo)
                            } else {
                                None
                            },
                            None => None,
                        }
                    } else {
                        None
                    }
                } else if kp.0 == message_key() {
                    if mo is None {
                        match spec_parse_array(s, m) {
                            Some(vp) => if i < vp.1 <= s.len() {
                                spec_after_value(s, vp.1, ho, po, Some(vp.0))
                            } else {
                                None
                            },
                            None => None,
                        }
                    } else {
                        None
                    }
                } else {
                    match spec_skip_value(s, m) {
                        Some(e) => if i < e <= s.len() {
                            spec_after_value(s, e, ho, po, mo)
                        } else {
                            None
                        },
                        None => None,
                    }
                }
            } else {
                None
            }
        },
        None => None,
    }
}

/// The whole envelope grammar: valid UTF-8 text holding, between
/// whitespace, an object that provides the three required members (other
/// members skipped), with nothing after it.
pub open spec fn spec_decode(s: Seq<u8>) -> Option<Envelope> {
    if valid_utf8(s) {
        let i = spec_skip_ws(s, 0);
        if i < s.len() && s[i] == 0x7b {  // '{'
            let j = spec_skip_ws(s, i + 1);
            match spec_parse_members(s, j, None, None, None) {
                Some(p) => if spec_skip_ws(s, p.1) == s.len() && valid_utf8(p.0.host) {
                    Some(p.0)
                } else {
                    None
                },
                None => None,
            }
        } else {
            None
        }
    } else {
        None
    }
}

pub proof fn lemma_digits_end_bounds(s: Seq<u8>, i: int)
    requires
        0 <= i <= s.len(),
    ensures
        i <= spec_digits_end(s, i) <= s.len(),
        forall|k: int| i <= k < spec_digits_end(s, i) ==> is_digit_byte(#[trigger] s[k]),
        i < s.len() && is_digit_byte(s[i]) ==> spec_digits_end(s, i) > i,
    decreases s.len() - i,
{
    if i < s.len() && is_digit_byte(s[i]) {
        lemma_digits_end_bounds(s, i + 1);
    }
}

/// The number spelled by digits is never negative.
pub proof fn lemma_seq_value_nonneg(d: Seq<u8>)
    requires
        forall|k: int| 0 <= k < d.len() ==> is_digit_byte(#[trigger] d[k]),
    ensures
        seq_value(d) >= 0,
    decreases d.len(),
{
    if d.len() > 0 {
        lemma_seq_value_nonneg(d.drop_last());
    }
}

/// Whether a byte is JSON whitespace.
fn is_ws_byte(b: u8) -> (r: bool)
    ensures
        r == is_json_ws(b),
{
    b == 0x20 || b == 0x09 || b == 0x0a || b == 0x0d
}

/// Whether a byte stands for itself in a string value.
fn is_raw_byte(b: u8) -> (r: bool)
    ensures
        r == is_raw_string_byte(b),
{
    b >= 0x20 && b != 0x22 && b != 0x5c
}

/// Whether a byte is an ASCII decimal digit.
fn is_dig_byte(b: u8) -> (r: bool)
    ensures
        r == is_digit_byte(b),
{
    0x30 <= b && b <= 0x39
}

/// The byte a single-character escape stands for.
fn escape_byte(b: u8) -> (r: Option<u8>)
    ensures
        r == spec_escape_byte(b),
{
    if b == 0x22 {
        Some(0x22)
    } else if b == 0x5c {
        Some(0x5c)
    } else if b == 0x2f {
        Some(0x2f)
    } else if b == 0x62 {
        Some(0x08)
    } else if b == 0x66 {
        Some(0x0c)
    } else if b == 0x6e {
        Some(0x0a)
    } else if b == 0x72 {
        Some(0x0d)
    } else if b == 0x74 {
        Some(0x09)
    } else {
        None
    }
}

/// The value of a hexadecimal digit byte.
fn hex_digit(b: u8) -> (r: Option<u8>)
    ensures
        r == hex_digit_value(b),
{
    if 0x30 <= b && b <= 0x39 {
        Some(b - 0x30)
    } else if 0x61 <= b && b <= 0x66 {
        Some(b - 0x57)
    } else if 0x41 <= b && b <= 0x46 {
        Some(b - 0x37)
    } else {
        None
    }
}

/// Advances past insignificant whitespace.
fn skip_ws(s: &[u8], i: usize) -> (r: usize)
    requires
        i <= s@.len(),
    ensures
        r == spec_skip_ws(s@, i as int),
        i <= r <= s@.len(),
{
    let mut j = i;
    while j < s.len() && is_ws_byte(s[j])
        invariant
            i <= j <= s@.len(),
            spec_skip_ws(s@, i as int) == spec_skip_ws(s@, j as int),
        decreases s@.len() - j,
    {
        j = j + 1;
    }
    j
}

/// Advances past decimal digits.
fn digits_end(s: &[u8], i: usize) -> (r: usize)
    requires
        i <= s@.len(),
    ensures
        r == spec_digits_end(s@, i as int),
        i <= r <= s@.len(),
{
    let mut j = i;
    while j < s.len() && is_dig_byte(s[j])
        invariant
            i <= j <= s@.len(),
            spec_digits_end(s@, i as int) == spec_digits_end(s@, j as int),
        decreases s@.len() - j,
    {
        j = j + 1;
    }
    j
}

/// Reads a string value's content from just past the opening quote.
#[verifier::rlimit(60)]
fn string_body(s: &[u8], i: usize) -> (r: Option<(Vec<u8>, usize)>)
    requires
        i <= s@.len(),
    ensures
        match spec_string_body(s@, i as int) {
            Some(p) => (r matches Some(q) && q.0@ == p.0 && q.1 == p.1 && i < q.1 <= s@.len()),
            None => r is None,
        },
    decreases s@.len() - i,
{
    if i < s.len() {
        let b = s[i];
        if b == 0x22 {
            let content: Vec<u8> = Vec::new();
            proof {
                assert(content@ =~= Seq::<u8>::empty());
            }
            Some((content, i + 1))
        } else if b == 0x5c {
            if i + 1 >= s.len() {
                return None;
            }
            match escape_byte(s[i + 1]) {
                Some(e) => {
                    match string_body(s, i + 2) {
                        Some((rest, end)) => {
                            let ghost rest0 = rest@;
                            let mut out = rest;
                            out.insert(0, e);
                            proof {
                                assert(out@ =~= seq![spec_escape_byte(s@[i + 1])->Some_0]
                                    + rest0);
                            }
                            Some((out, end))
                        },
                        None => None,
                    }
                },
                None => {
                    if s[i + 1] == 0x75 && s.len() - i >= 6 {
                        let h3 = hex_digit(s[i + 2]);
                        let h2 = hex_digit(s[i + 3]);
                        let h1 = hex_digit(s[i + 4]);
                        let h0 = hex_digit(s[i + 5]);
                        if h3.is_some() && h2.is_some() && h1.is_some() && h0.is_some() {
                            let c: u32 = (h3.unwrap() as u32) * 0x1000 + (h2.unwrap() as u32)
                                * 0x100 + (h1.unwrap() as u32) * 0x10 + (h0.unwrap() as u32);
                            if 0xd800 <= c && c <= 0xdfff {
                                None
                            } else {
                                match string_body(s, i + 6) {
                                    Some((rest, end)) => {
                                        let ghost rest0 = rest@;
                                        let mut out = rest;
                                        if c < 0x80 {
                                            out.insert(0, c as u8);
                                        } else if c < 0x800 {
                                            out.insert(0, (0x80 + c % 0x40) as u8);
                                            out.insert(0, (0xc0 + c / 0x40) as u8);
                                        } else {
                                            out.insert(0, (0x80 + c % 0x40) as u8);
                                            out.insert(0, (0x80 + (c / 0x40) % 0x40) as u8);
                                            out.insert(0, (0xe0 + c / 0x1000) as u8);
                                        }
                                        proof {
                                            assert(out@ =~= utf8_encoding(c as int) + rest0);
                                        }
                                        Some((out, end))
                                    },
                                    None => None,
                                }
                            }
                        } else {
                            None
                        }
                    } else {
                        None
                    }
                },
            }
        } else if is_raw_byte(b) {
            match string_body(s, i + 1) {
                Some((rest, end)) => {
                    let ghost rest0 = rest@;
                    let mut out = rest;
                    out.insert(0, b);
                    proof {
                        assert(out@ =~= seq![s@[i as int]] + rest0);
                    }
                    Some((out, end))
                },
                None => None,
            }
        } else {
            None
        }
    } else {
        None
    }
}

/// Reads a string value, returning its unescaped content and the index
/// past it.
fn parse_string(s: &[u8], i: usize) -> (r: Option<(Vec<u8>, usize)>)
    requires
        i <= s@.len(),
    ensures
        match spec_parse_string(s@, i as int) {
            Some(p) => (r matches Some(q) && q.0@ == p.0 && q.1 == p.1 && i < q.1 <= s@.len()),
            None => r is None,
        },
{
    if i < s.len() && s[i] == 0x22 {
        string_body(s, i + 1)
    } else {
        None
    }
}

/// A number too large for any field of the envelope, standing in for every
/// out-of-range value when a parsed number is clamped.
pub open spec fn spec_clamp(v: int) -> int {
    if v > 65535 {
        65536
    } else {
        v
    }
}

/// Reads an unsigned integer, clamping values above 65535 to 65536
/// (every field of the envelope rejects such values alike).
fn parse_uint(s: &[u8], i: usize) -> (r: Option<(u32, usize)>)
    requires
        i <= s@.len(),
    ensures
        match spec_parse_uint(s@, i as int) {
            Some(p) => (r matches Some(q) && q.0 == spec_clamp(p.0) && q.1 == p.1 && i < q.1
                <= s@.len()),
            None => r is None,
        },
{
    if !(i < s.len() && is_dig_byte(s[i])) {
        return None;
    }
    proof {
        lemma_digits_end_bounds(s@, i as int);
    }
    if s[i] == 0x30 && i + 1 < s.len() && is_dig_byte(s[i + 1]) {
        // a leading zero is not part of the grammar
        proof {
            lemma_digits_end_bounds(s@, i + 1);
            assert(spec_digits_end(s@, i as int) == spec_digits_end(s@, i + 1));
        }
        return None;
    }
    let mut j = i;
    let mut acc: u32 = 0;
    proof {
        assert(s@.subrange(i as int, j as int) =~= Seq::<u8>::empty());
    }
    while j < s.len() && is_dig_byte(s[j])
        invariant
            i <= j <= s@.len(),
            spec_digits_end(s@, i as int) == spec_digits_end(s@, j as int),
            acc == spec_clamp(seq_value(s@.subrange(i as int, j as int))),
            acc <= 65536,
        decreases s@.len() - j,
    {
        let d = (s[j] - 0x30) as u32;
        let t = acc * 10 + d;
        proof {
            assert(s@.subrange(i as int, j + 1).drop_last() =~= s@.subrange(i as int, j as int));
        }
        acc = if t > 65535 {
            65536
        } else {
            t
        };
        j = j + 1;
    }
    Some((acc, j))
}

/// Reads the elements of a byte array, first digit at `i`.
fn parse_elems(s: &[u8], i: usize) -> (r: Option<(Vec<u8>, usize)>)
    requires
        i <= s@.len(),
    ensures
        match spec_parse_elems(s@, i as int) {
            Some(p) => (r matches Some(q) && q.0@ == p.0 && q.1 == p.1 && i < q.1 <= s@.len()),
            None => r is None,
        },
    decreases s@.len() - i,
{
    match parse_uint(s, i) {
        Some((v, j)) => {
            proof {
                lemma_digits_end_bounds(s@, i as int);
                lemma_seq_value_nonneg(s@.subrange(i as int, spec_digits_end(s@, i as int)));
            }
            if v <= 255 {
                let k = skip_ws(s, j);
                if k < s.len() && s[k] == 0x2c {
                    let m = skip_ws(s, k + 1);
                    match parse_elems(s, m) {
                        Some((rest, e)) => {
                            let mut out = rest;
                            out.insert(0, v as u8);
                            Some((out, e))
                        },
                        None => None,
                    }
                } else if k < s.len() && s[k] == 0x5d {
                    let mut out: Vec<u8> = Vec::new();
                    out.push(v as u8);
                    proof {
                        let p0 = spec_parse_uint(s@, i as int)->Some_0.0;
                        assert(out@ =~= seq![p0 as u8]);
                    }
                    Some((out, k + 1))
                } else {
                    None
                }
            } else {
                None
            }
        },
        None => None,
    }
}

/// Reads a byte array value.
fn parse_array(s: &[u8], i: usize) -> (r: Option<(Vec<u8>, usize)>)
    requires
        i <= s@.len(),
    ensures
        match spec_parse_array(s@, i as int) {
            Some(p) => (r matches Some(q) && q.0@ == p.0 && q.1 == p.1 && i < q.1 <= s@.len()),
            None => r is None,
        },
{
    if i < s.len() && s[i] == 0x5b {
        let j = skip_ws(s, i + 1);
        if j < s.len() && s[j] == 0x5d {
            let out: Vec<u8> = Vec::new();
            proof {
                assert(out@ =~= Seq::<u8>::empty());
            }
            Some((out, j + 1))
        } else {
            parse_elems(s, j)
        }
    } else {
        None
    }
}

/// Advances past a JSON number.
fn skip_number(s: &[u8], i: usize) -> (r: Option<usize>)
    requires
        i <= s@.len(),
    ensures
        match spec_skip_number(s@, i as int) {
            Some(p) => (r matches Some(q) && q == p && i < q <= s@.len()),
            None => r is None,
        },
{
    let a = if i < s.len() && s[i] == 0x2d {
        i + 1
    } else {
        i
    };
    if !(a < s.len() && is_dig_byte(s[a])) {
        return None;
    }
    proof {
        lemma_digits_end_bounds(s@, a as int);
    }
    let b = digits_end(s, a);
    if s[a] == 0x30 && b != a + 1 {
        return None;
    }
    let c = if b < s.len() && s[b] == 0x2e {
        if b + 1 < s.len() && is_dig_byte(s[b + 1]) {
            proof {
                lemma_digits_end_bounds(s@, b + 1);
            }
            digits_end(s, b + 1)
        } else {
            return None;
        }
    } else {
        b
    };
    if c < s.len() && (s[c] == 0x65 || s[c] == 0x45) {
        let e0 = if c + 1 < s.len() && (s[c + 1] == 0x2b || s[c + 1] == 0x2d) {
            c + 2
        } else {
            c + 1
        };
        if e0 < s.len() && is_dig_byte(s[e0]) {
            proof {
                lemma_digits_end_bounds(s@, e0 as int);
            }
            Some(digits_end(s, e0))
        } else {
            None
        }
    } else {
        Some(c)
    }
}

/// Advances past any JSON value.
fn skip_value(s: &[u8], i: usize) -> (r: Option<usize>)
    requires
        i <= s@.len(),
    ensures
        match spec_skip_value(s@, i as int) {
            Some(p) => (r matches Some(q) && q == p && i < q <= s@.len()),
            None => r is None,
        },
    decreases s@.len() - i, 1nat,
{
    if i >= s.len() {
        return None;
    }
    let b = s[i];
    if b == 0x22 {
        match parse_string(s, i) {
            Some((_, e)) => Some(e),
            None => None,
        }
    } else if b == 0x5b {
        let j = skip_ws(s, i + 1);
        if j < s.len() && s[j] == 0x5d {
            Some(j + 1)
        } else {
            skip_array_items(s, j)
        }
    } else if b == 0x7b {
        let j = skip_ws(s, i + 1);
        if j < s.len() && s[j] == 0x7d {
            Some(j + 1)
        } else {
            skip_object_members(s, j)
        }
    } else if b == 0x74 {
        if s.len() - i >= 4 && s[i + 1] == 0x72 && s[i + 2] == 0x75 && s[i + 3] == 0x65 {
            Some(i + 4)
        } else {
            None
        }
    } else if b == 0x66 {
        if s.len() - i >= 5 && s[i + 1] == 0x61 && s[i + 2] == 0x6c && s[i + 3] == 0x73 && s[i + 4]
            == 0x65 {
            Some(i + 5)
        } else {
            None
        }
    } else if b == 0x6e {
        if s.len() - i >= 4 && s[i + 1] == 0x75 && s[i + 2] == 0x6c && s[i + 3] == 0x6c {
            Some(i + 4)
        } else {
            None
        }
    } else {
        skip_number(s, i)
    }
}

/// Advances past the items of a skipped array.
fn skip_array_items(s: &[u8], i: usize) -> (r: Option<usize>)
    requires
        i <= s@.len(),
    ensures
        match spec_skip_array_items(s@, i as int) {
            Some(p) => (r matches Some(q) && q == p && i < q <= s@.len()),
            None => r is None,
        },
    decreases s@.len() - i, 2nat,
{
    match skip_value(s, i) {
        Some(e) => {
            let k = skip_ws(s, e);
            if k < s.len() && s[k] == 0x2c {
                let m = skip_ws(s, k + 1);
                skip_array_items(s, m)
            } else if k < s.len() && s[k] == 0x5d {
                Some(k + 1)
            } else {
                None
            }
        },
        None => None,
    }
}

/// Advances past the members of a skipped object.
fn skip_object_members(s: &[u8], i: usize) -> (r: Option<usize>)
    requires
        i <= s@.len(),
    ensures
        match spec_skip_object_members(s@, i as int) {
            Some(p) => (r matches Some(q) && q == p && i < q <= s@.len()),
            None => r is None,
        },
    decreases s@.len() - i, 2nat,
{
    match parse_string(s, i) {
        Some((_, j)) => {
            let k = skip_ws(s, j);
            if k < s.len() && s[k] == 0x3a {
                let m = skip_ws(s, k + 1);
                match skip_value(s, m) {
                    Some(e) => {
                        let k2 = skip_ws(s, e);
                        if k2 < s.len() && s[k2] == 0x2c {
                            let m2 = skip_ws(s, k2 + 1);
                            skip_object_members(s, m2)
                        } else if k2 < s.len() && s[k2] == 0x7d {
                            Some(k2 + 1)
                        } else {
                            None
                        }
                    },
                    None => None,
                }
            } else {
                None
            }
        },
        None => None,
    }
}

/// Whether a key spells `host`.
fn is_host_key(k: &Vec<u8>) -> (r: bool)
    ensures
        r == (k@ == host_key()),
{
    let r = k.len() == 4 && k[0] == 0x68 && k[1] == 0x6f && k[2] == 0x73 && k[3] == 0x74;
    proof {
        if r {
            assert(k@ =~= host_key());
        } else {
            if k@ == host_key() {
                assert(k@.len() == 4);
                assert(k@[0] == 0x68 && k@[1] == 0x6f && k@[2] == 0x73 && k@[3] == 0x74);
            }
        }
    }
    r
}

/// Whether a key spells `port`.
fn is_port_key(k: &Vec<u8>) -> (r: bool)
    ensures
        r == (k@ == port_key()),
{
    let r = k.len() == 4 && k[0] == 0x70 && k[1] == 0x6f && k[2] == 0x72 && k[3] == 0x74;
    proof {
        if r {
            assert(k@ =~= port_key());
        } else {
            if k@ == port_key() {
                assert(k@.len() == 4);
                assert(k@[0] == 0x70 && k@[1] == 0x6f && k@[2] == 0x72 && k@[3] == 0x74);
            }
        }
    }
    r
}

/// Whether a key spells `message`.
fn is_message_key(k: &Vec<u8>) -> (r: bool)
    ensures
        r == (k@ == message_key()),
{
    let r = k.len() == 7 && k[0] == 0x6d && k[1] == 0x65 && k[2] == 0x73 && k[3] == 0x73 && k[4]
        == 0x61 && k[5] == 0x67 && k[6] == 0x65;
    proof {
        if r {
            assert(k@ =~= message_key());
        } else {
            if k@ == message_key() {
                assert(k@.len() == 7);
                assert(k@[0] == 0x6d && k@[1] == 0x65 && k@[2] == 0x73 && k@[3] == 0x73 && k@[4]
                    == 0x61 && k@[5] == 0x67 && k@[6] == 0x65);
            }
        }
    }
    r
}

/// The spec-level view of an optional byte buffer.
pub open spec fn opt_bytes_view(o: Option<Vec<u8>>) -> Option<Seq<u8>> {
    match o {
        Some(v) => Some(v@),
        None => None,
    }
}

/// Reads members from the opening quote of a key onward.
fn parse_members(
    s: &[u8],
    i: usize,
    ho: Option<Vec<u8>>,
    po: Option<u16>,
    mo: Option<Vec<u8>>,
) -> (r: Option<(Vec<u8>, u16, Vec<u8>, usize)>)
    requires
        i <= s@.len(),
    ensures
        match spec_parse_members(s@, i as int, opt_bytes_view(ho), po, opt_bytes_view(mo)) {
            Some(p) => (r matches Some(q) && q.0@ == p.0.host && q.1 == p.0.port && q.2@
                == p.0.message && q.3 == p.1 && q.3 <= s@.len()),
            None => r is None,
        },
    decreases s@.len() - i,
{
    match parse_string(s, i) {
        Some((key, j)) => {
            let k = skip_ws(s, j);
            if k < s.len() && s[k] == 0x3a {
                let m = skip_ws(s, k + 1);
                if is_host_key(&key) {
                    if ho.is_none() {
                        match parse_string(s, m) {
                            Some((h, e)) => parse_after_value(s, e, Some(h), po, mo),
                            None => None,
                        }
                    } else {
                        None
                    }
                } else if is_port_key(&key) {
                    if po.is_none() {
                        match parse_uint(s, m) {
                            Some((v, e)) => {
                                proof {
                                    lemma_digits_end_bounds(s@, m as int);
                                    lemma_seq_value_nonneg(
                                        s@.subrange(m as int, spec_digits_end(s@, m as int)),
                                    );
                                }
                                if v <= 65535 {
                                    parse_after_value(s, e, ho, Some(v as u16), mo)
                                } else {
                                    None
                                }
                            },
                            None => None,
                        }
                    } else {
                        None
                    }
                } else if is_message_key(&key) {
                    if mo.is_none() {
                        match parse_array(s, m) {
                            Some((a, e)) => parse_after_value(s, e, ho, po, Some(a)),
                            None => None,
                        }
                    } else {
                        None
                    }
                } else {
                    match skip_value(s, m) {
                        Some(e) => parse_after_value(s, e, ho, po, mo),
                        None => None,
                    }
                }
            } else {
                None
            }
        },
        None => None,
    }
}

/// Reads what follows a member's value: the closing brace or a comma and
/// the next member.
fn parse_after_value(
    s: &[u8],
    j: usize,
    ho: Option<Vec<u8>>,
    po: Option<u16>,
    mo: Option<Vec<u8>>,
) -> (r: Option<(Vec<u8>, u16, Vec<u8>, usize)>)
    requires
        j <= s@.len(),
    ensures
        match spec_after_value(s@, j as int, opt_bytes_view(ho), po, opt_bytes_view(mo)) {
            Some(p) => (r matches Some(q) && q.0@ == p.0.host && q.1 == p.0.port && q.2@
                == p.0.message && q.3 == p.1 && q.3 <= s@.len()),
            None => r is None,
        },
    decreases s@.len() - j,
{
    let k = skip_ws(s, j);
    if k < s.len() && s[k] == 0x7d {
        match (ho, po, mo) {
            (Some(h), Some(p), Some(m)) => Some((h, p, m, k + 1)),
            _ => None,
        }
    } else if k < s.len() && s[k] == 0x2c {
        let m = skip_ws(s, k + 1);
        parse_members(s, m, ho, po, mo)
    } else {
        None
    }
}

/// Raised when an inbound payload does not satisfy the envelope grammar:
/// bytes that decode to no text, a missing or repeated field, a value of
/// the wrong type, or an out-of-range number.
#[derive(Debug, PartialEq, Eq, Structural)]
pub enum DecodeError {
    Malformed,
}

/// A decoded print envelope: destination host and port, and the raw
/// payload bytes to write to the printer.
#[derive(Debug)]
pub struct MqttPrintMessage {
    pub host: String,
    pub port: u16,
    pub message: Vec<u8>,
}

impl MqttPrintMessage {
    /// The identifier of the printer this envelope addresses.
    pub fn host_and_port(&self) -> (r: String)
        ensures
            r@ == spec_identifier(self.host@, self.port),
    {
        identifier_string(&self.host, self.port)
    }

    /// Decodes and validates an inbound payload. Returns `Ok` exactly on
    /// the payloads the envelope grammar accepts; every other payload is
    /// rejected whole, with no partially populated message.
    pub fn decode(raw: &[u8]) -> (r: Result<MqttPrintMessage, DecodeError>)
        ensures
            match spec_decode(raw@) {
                Some(env) => (r matches Ok(m) && m.host@ == decode_utf8(env.host) && m.port
                    == env.port && m.message@ == env.message),
                None => r == Err::<MqttPrintMessage, DecodeError>(DecodeError::Malformed),
            },
    {
        match string_from_utf8(slice_to_vec(raw)) {
            Some(_) => {},
            None => {
                return Err(DecodeError::Malformed);
            },
        }
        let i = skip_ws(raw, 0);
        if i < raw.len() && raw[i] == 0x7b {
            match parse_members(raw, skip_ws(raw, i + 1), None, None, None) {
                Some((host_bytes, port, message, e)) => {
                    if skip_ws(raw, e) == raw.len() {
                        match string_from_utf8(host_bytes) {
                            Some(host) => Ok(MqttPrintMessage { host, port, message }),
                            None => Err(DecodeError::Malformed),
                        }
                    } else {
                        Err(DecodeError::Malformed)
                    }
                },
                None => Err(DecodeError::Malformed),
            }
        } else {
            Err(DecodeError::Malformed)
        }
    }
}

} // verus!
