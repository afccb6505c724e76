//! Startup configuration: an ordered, comma-separated list of printer
//! entries, each `"host"` or `"host:port"`. The host is the entry's text
//! before its first colon; the port defaults to 9001 when omitted. A
//! malformed entry — empty host, an unparsable or out-of-range port — is
//! fatal: the whole configuration is rejected before any worker is built.

use vstd::prelude::*;
use vstd::slice::slice_subrange;
use vstd::slice::slice_to_vec;

use vstd::utf8::decode_utf8;
use vstd::utf8::valid_utf8;

use crate::mqtt::is_digit_byte;
use crate::mqtt::seq_value;
use crate::printer::PrinterActor;
use crate::text::string_from_utf8;

verus! {

/// The port used when a configured entry names none.
pub open spec fn default_port() -> u16 {
    9001
}

/// Whitespace stripped from both ends of an entry.
pub open spec fn is_trim_byte(b: u8) -> bool {
    b == 0x20 || b == 0x09 || b == 0x0a || b == 0x0d
}

/// First index at or after `i` holding a non-whitespace byte (or the end).
pub open spec fn spec_trim_start(s: Seq<u8>, i: int) -> int
    decreases s.len() - i,
{
    if i < s.len() && is_trim_byte(s[i]) {
        spec_trim_start(s, i + 1)
    } else {
        i
    }
}

/// Last bound at or before `j` with no whitespace byte just before it.
pub open spec fn spec_trim_end(s: Seq<u8>, j: int) -> int
    decreases j,
{
    if 0 < j <= s.len() && is_trim_byte(s[j - 1]) {
        spec_trim_end(s, j - 1)
    } else {
        j
    }
}

/// The entry with surrounding whitespace stripped.
pub open spec fn spec_trimmed(s: Seq<u8>) -> Seq<u8> {
    let ts = spec_trim_start(s, 0);
    let te = spec_trim_end(s, s.len() as int);
    if ts <= te {
        s.subrange(ts, te)
    } else {
        Seq::empty()
    }
}

/// First index at or after `i` holding the byte `b` (or the end).
pub open spec fn spec_find_byte(s: Seq<u8>, i: int, b: u8) -> int
    decreases s.len() - i,
{
    if i < s.len() && s[i] != b {
        spec_find_byte(s, i + 1, b)
    } else {
        i
    }
}

/// One configured printer entry: host bytes and port.
pub struct ConfigEntry {
    pub host: Seq<u8>,
    pub port: u16,
}

/// One trimmed entry: a non-empty host — the text before the first colon,
/// any characters — optionally followed by `:` and a decimal port no
/// larger than 65535, with an optional leading `+`. Without the colon the
/// port is 9001.
/// The digits of a port text, one optional leading `+` stripped.
pub open spec fn spec_port_digits(ptxt: Seq<u8>) -> Seq<u8> {
    if ptxt.len() > 0 && ptxt[0] == 0x2b {
        ptxt.drop_first()
    } else {
        ptxt
    }
}

/// Whether a digit run spells a port: non-empty, digits only, no larger
/// than 65535.
pub open spec fn spec_port_ok(digits: Seq<u8>) -> bool {
    digits.len() > 0 && (forall|k: int|
        0 <= k < digits.len() ==> is_digit_byte(#[trigger] digits[k])) && seq_value(digits)
        <= 65535
}

pub open spec fn spec_parse_entry(e: Seq<u8>) -> Option<ConfigEntry> {
    let t = spec_trimmed(e);
    let c = spec_find_byte(t, 0, 0x3a);
    if c == t.len() {
        if t.len() > 0 && valid_utf8(t) {
            Some(ConfigEntry { host: t, port: default_port() })
        } else {
            None
        }
    } else {
        let host = t.subrange(0, c);
        let digits = spec_port_digits(t.subrange(c + 1, t.len() as int));
        if host.len() > 0 && valid_utf8(host) && spec_port_ok(digits) {
            Some(ConfigEntry { host, port: seq_value(digits) as u16 })
        } else {
            None
        }
    }
}

/// The comma-separated entries from `i` on; `None` as soon as one entry is
/// malformed.
pub open spec fn spec_parse_entries(s: Seq<u8>, i: int) -> Option<Seq<ConfigEntry>>
    decreases s.len() - i,
{
    let e = spec_find_byte(s, i, 0x2c);
    match spec_parse_entry(s.subrange(i, e)) {
        Some(p) => if e < s.len() {
            if i < e + 1 <= s.len() {
                match spec_parse_entries(s, e + 1) {
                    Some(rest) => Some(seq![p] + rest),
                    None => None,
                }
            } else {
                None
            }
        } else {
            Some(seq![p])
        },
        None => None,
    }
}

/// The whole configured printer list.
pub open spec fn spec_parse_printers(s: Seq<u8>) -> Option<Seq<ConfigEntry>> {
    spec_parse_entries(s, 0)
}

/// An entry that names no port gets port 9001: with no colon in the
/// trimmed entry, a successfully parsed entry carries the default port.
pub proof fn lemma_default_port(e: Seq<u8>)
    requires
        forall|k: int| 0 <= k < spec_trimmed(e).len() ==> #[trigger] spec_trimmed(e)[k] != 0x3a,
    ensures
        spec_parse_entry(e) matches Some(p) ==> p.port == default_port(),
{
    let t = spec_trimmed(e);
    lemma_find_byte_all(t, 0, 0x3a);
}

/// `spec_find_byte` reaches the end exactly when no byte matches.
proof fn lemma_find_byte_all(s: Seq<u8>, i: int, b: u8)
    requires
        0 <= i <= s.len(),
        forall|k: int| i <= k < s.len() ==> #[trigger] s[k] != b,
    ensures
        spec_find_byte(s, i, b) == s.len(),
    decreases s.len() - i,
{
    if i < s.len() && s[i] != b {
        lemma_find_byte_all(s, i + 1, b);
    }
}

/// Raised at startup for a malformed printer entry; the process must not
/// begin serving traffic.
#[derive(Debug, PartialEq, Eq, Structural)]
pub enum ConfigError {
    BadEntry,
}

pub proof fn lemma_find_byte_bounds(s: Seq<u8>, i: int, b: u8)
    requires
        0 <= i <= s.len(),
    ensures
        i <= spec_find_byte(s, i, b) <= s.len(),
        spec_find_byte(s, i, b) < s.len() ==> s[spec_find_byte(s, i, b)] == b,
    decreases s.len() - i,
{
    if i < s.len() && s[i] != b {
        lemma_find_byte_bounds(s, i + 1, b);
    }
}

proof fn lemma_trim_start_bounds(s: Seq<u8>, i: int)
    requires
        0 <= i <= s.len(),
    ensures
        i <= spec_trim_start(s, i) <= s.len(),
    decreases s.len() - i,
{
    if i < s.len() && is_trim_byte(s[i]) {
        lemma_trim_start_bounds(s, i + 1);
    }
}

proof fn lemma_trim_end_bounds(s: Seq<u8>, j: int)
    requires
        0 <= j <= s.len(),
    ensures
        0 <= spec_trim_end(s, j) <= j,
    decreases j,
{
    if 0 < j <= s.len() && is_trim_byte(s[j - 1]) {
        lemma_trim_end_bounds(s, j - 1);
    }
}

/// Whether a byte is trimmed whitespace.
fn is_trim(b: u8) -> (r: bool)
    ensures
        r == is_trim_byte(b),
{
    b == 0x20 || b == 0x09 || b == 0x0a || b == 0x0d
}

/// Strips whitespace from both ends.
fn trimmed<'a>(e: &'a [u8]) -> (r: &'a [u8])
    ensures
        r@ == spec_trimmed(e@),
{
    let mut ts: usize = 0;
    while ts < e.len() && is_trim(e[ts])
        invariant
            0 <= ts <= e@.len(),
            spec_trim_start(e@, 0) == spec_trim_start(e@, ts as int),
        decreases e@.len() - ts,
    {
        ts = ts + 1;
    }
    let mut te: usize = e.len();
    while te > 0 && is_trim(e[te - 1])
        invariant
            0 <= te <= e@.len(),
            spec_trim_end(e@, e@.len() as int) == spec_trim_end(e@, te as int),
        decreases te,
    {
        te = te - 1;
    }
    if ts <= te {
        slice_subrange(e, ts, te)
    } else {
        proof {
            assert(e@.subrange(ts as int, ts as int) =~= Seq::<u8>::empty());
        }
        slice_subrange(e, ts, ts)
    }
}

/// First position of `b` at or after `i`, or the end.
fn find_byte(s: &[u8], i: usize, b: u8) -> (r: usize)
    requires
        i <= s@.len(),
    ensures
        r == spec_find_byte(s@, i as int, b),
        i <= r <= s@.len(),
{
    let mut j = i;
    while j < s.len() && s[j] != b
        invariant
            i <= j <= s@.len(),
            spec_find_byte(s@, i as int, b) == spec_find_byte(s@, j as int, b),
        decreases s@.len() - j,
    {
        j = j + 1;
    }
    j
}

/// Parses the decimal port of an entry: a non-empty run of digits whose
/// value fits a port. Leading zeros are allowed here, as a configured
/// `"0009100"` is an ordinary decimal spelling.
fn parse_port(s: &[u8]) -> (r: Option<u16>)
    ensures
        spec_port_ok(s@) ==> r == Some(seq_value(s@) as u16),
        !spec_port_ok(s@) ==> r is None,
{
    if s.len() == 0 {
        return None;
    }
    let mut j: usize = 0;
    let mut acc: u32 = 0;
    proof {
        assert(s@.subrange(0, 0) =~= Seq::<u8>::empty());
    }
    while j < s.len()
        invariant
            0 <= j <= s@.len(),
            forall|k: int| 0 <= k < j ==> is_digit_byte(#[trigger] s@[k]),
            acc == crate::mqtt::spec_clamp(seq_value(s@.subrange(0, j as int))),
            acc <= 65536,
        decreases s@.len() - j,
    {
        let b = s[j];
        if !(0x30 <= b && b <= 0x39) {
            return None;
        }
        let d = (b - 0x30) as u32;
        let t = acc * 10 + d;
        proof {
            assert(s@.subrange(0, j + 1).drop_last() =~= s@.subrange(0, j as int));
        }
        acc = if t > 65535 {
            65536
        } else {
            t
        };
        j = j + 1;
    }
    proof {
        assert(s@.subrange(0, s@.len() as int) =~= s@);
        crate::mqtt::lemma_seq_value_nonneg(s@);
    }
    if acc <= 65535 {
        Some(acc as u16)
    } else {
        None
    }
}

/// Parses one entry; `None` exactly where the entry grammar rejects it.
fn parse_entry(e: &[u8]) -> (r: Option<(String, u16)>)
    ensures
        match spec_parse_entry(e@) {
            Some(p) => (r matches Some(q) && q.0@ == decode_utf8(p.host) && q.1 == p.port),
            None => r is None,
        },
{
    let t = trimmed(e);
    proof {
        lemma_trim_start_bounds(e@, 0);
        lemma_trim_end_bounds(e@, e@.len() as int);
        lemma_find_byte_bounds(t@, 0, 0x3a);
    }
    let c = find_byte(t, 0, 0x3a);
    if c == t.len() {
        if t.len() > 0 {
            match string_from_utf8(slice_to_vec(t)) {
                Some(host) => Some((host, 9001)),
                None => None,
            }
        } else {
            None
        }
    } else {
        let host_part = slice_subrange(t, 0, c);
        let mut digit_part = slice_subrange(t, c + 1, t.len());
        if digit_part.len() > 0 && digit_part[0] == 0x2b {
            digit_part = slice_subrange(t, c + 2, t.len());
            proof {
                let ptxt = t@.subrange(c + 1, t@.len() as int);
                assert(digit_part@ =~= ptxt.drop_first());
            }
        }
        if host_part.len() > 0 {
            match parse_port(digit_part) {
                Some(port) => {
                    match string_from_utf8(slice_to_vec(host_part)) {
                        Some(host) => Some((host, port)),
                        None => None,
                    }
                },
                None => None,
            }
        } else {
            None
        }
    }
}

/// Parses the configured printer list into endpoints, in order. Returns
/// `Ok` exactly when every entry is well-formed; one malformed entry
/// rejects the whole configuration.
pub fn load_printers(config: &[u8]) -> (r: Result<Vec<PrinterActor>, ConfigError>)
    ensures
        match spec_parse_printers(config@) {
            Some(entries) => (r matches Ok(v) && v@.len() == entries.len() && (forall|k: int|
                0 <= k < entries.len() ==> (#[trigger] v@[k]).host@ == decode_utf8(
                    entries[k].host,
                ) && v@[k].port == entries[k].port)),
            None => r == Err::<Vec<PrinterActor>, ConfigError>(ConfigError::BadEntry),
        },
{
    match parse_entries_from(config, 0) {
        Some(v) => Ok(v),
        None => Err(ConfigError::BadEntry),
    }
}

/// Parses the entries from `i` on; mirror of `spec_parse_entries`.
fn parse_entries_from(s: &[u8], i: usize) -> (r: Option<Vec<PrinterActor>>)
    requires
        i <= s@.len(),
    ensures
        match spec_parse_entries(s@, i as int) {
            Some(entries) => (r matches Some(v) && v@.len() == entries.len() && (forall|k: int|
                0 <= k < entries.len() ==> (#[trigger] v@[k]).host@ == decode_utf8(
                    entries[k].host,
                ) && v@[k].port == entries[k].port)),
            None => r is None,
        },
    decreases s@.len() - i,
{
    let e = find_byte(s, i, 0x2c);
    let entry = slice_subrange(s, i, e);
    match parse_entry(entry) {
        Some((host, port)) => {
            let printer = PrinterActor { host, port };
            if e < s.len() {
                match parse_entries_from(s, e + 1) {
                    Some(rest) => {
                        let mut v = rest;
                        v.insert(0, printer);
                        Some(v)
                    },
                    None => None,
                }
            } else {
                let mut v: Vec<PrinterActor> = Vec::new();
                v.push(printer);
                Some(v)
            }
        },
        None => None,
    }
}

} // verus!
