//! Validation of device addresses of the form `host:port`.
//!
//! A host is an IPv4 address, an IPv6 address (written in brackets), or a DNS
//! name made of dot-separated labels.
use vstd::prelude::*;

use crate::text::{
    all_digits, ascii_alnum, chars_of, digits_value, find_char, first_index_of, is_ascii_alnum,
    is_digit, is_whitespace, is_ws, owned, parse_u64, parses_unsigned, slice_range, split_chars,
    split_on, string_of, trim, trim_chars, unsigned_digits, unsigned_value,
};

verus! {

/// Whether `core::net::Ipv6Addr::from_str` accepts the string.
pub uninterp spec fn parses_as_ipv6(s: Seq<char>) -> bool;

/// `<core::net::Ipv6Addr as FromStr>::from_str`, of which only success is kept.
/// The contract claims only that the answer is a function of the string; the
/// IPv6 grammar itself is not restated here.
#[verifier::external_body]
fn ipv6_parses(host: &str) -> (r: bool)
    ensures
        r == parses_as_ipv6(host@),
{
    host.parse::<core::net::Ipv6Addr>().is_ok()
}

// ── Specification ────────────────────────────────────────────────────────────

/// Number of bytes of the UTF-8 encoding of one character.
pub open spec fn utf8_width(c: char) -> nat {
    if (c as u32) < 0x80 {
        1
    } else if (c as u32) < 0x800 {
        2
    } else if (c as u32) < 0x10000 {
        3
    } else {
        4
    }
}

/// Number of bytes of the UTF-8 encoding of a string (`str::len`).
pub open spec fn utf8_len(s: Seq<char>) -> nat
    decreases s.len(),
{
    if s.len() == 0 {
        0
    } else {
        utf8_len(s.drop_last()) + utf8_width(s.last())
    }
}

/// One decimal octet of a dotted IPv4 address: one to three digits, no
/// leading zero unless the octet is `0`, value at most 255.
pub open spec fn valid_octet(o: Seq<char>) -> bool {
    &&& 1 <= o.len() <= 3
    &&& all_digits(o)
    &&& (o.len() == 1 || o[0] != '0')
    &&& digits_value(o) <= 255
}

/// The dotted-quad form that `Ipv4Addr::from_str` accepts.
pub open spec fn valid_ipv4(s: Seq<char>) -> bool {
    let parts = split_on(s, '.');
    parts.len() == 4 && forall|i: int| 0 <= i < 4 ==> valid_octet(#[trigger] parts[i])
}

/// A DNS label: 1 to 63 characters, ASCII letters, digits and `-`, starting
/// and ending with a letter or digit.
pub open spec fn valid_label(l: Seq<char>) -> bool {
    &&& 1 <= l.len() <= 63
    &&& is_ascii_alnum(l[0])
    &&& is_ascii_alnum(l.last())
    &&& forall|i: int| 0 <= i < l.len() ==> (is_ascii_alnum(#[trigger] l[i]) || l[i] == '-')
}

/// A valid host: at most 253 bytes, no whitespace, and an IPv4 address, an
/// IPv6 address, or dot-separated valid labels.
pub open spec fn valid_host(h: Seq<char>) -> bool {
    &&& h.len() > 0
    &&& utf8_len(h) <= 253
    &&& forall|i: int| 0 <= i < h.len() ==> !is_ws(#[trigger] h[i])
    &&& (valid_ipv4(h) || parses_as_ipv6(h) || forall|i: int|
        0 <= i < split_on(h, '.').len() ==> valid_label(#[trigger] split_on(h, '.')[i]))
}

/// A valid port: a decimal number from 1 to 65535 (an optional `+` is read
/// as by `u16::from_str`).
pub open spec fn valid_port(p: Seq<char>) -> bool {
    parses_unsigned(p, 65535) && unsigned_value(p) > 0
}

/// Position of the last `:` of `s`, if any.
pub open spec fn last_colon(s: Seq<char>) -> Option<int> {
    if exists|i: int| 0 <= i < s.len() && s[i] == ':' {
        Some(choose|i: int| 0 <= i < s.len() && s[i] == ':' && forall|j: int| i < j < s.len() ==> s[j] != ':')
    } else {
        None
    }
}

/// No `:` in `s`.
pub open spec fn no_colon(s: Seq<char>) -> bool {
    forall|i: int| 0 <= i < s.len() ==> s[i] != ':'
}

/// The host and port of `s`: `[host]:port`, or `host:port` with exactly one
/// colon.
pub open spec fn split_host_port(s: Seq<char>) -> Option<(Seq<char>, Seq<char>)> {
    if s.len() > 0 && s[0] == '[' {
        let rest = s.drop_first();
        match first_index_of(rest, ']') {
            None => None,
            Some(end) => {
                let host = rest.subrange(0, end);
                let remainder = rest.subrange(end + 1, rest.len() as int);
                if remainder.len() > 0 && remainder[0] == ':' && no_colon(remainder.drop_first()) {
                    Some((host, remainder.drop_first()))
                } else {
                    None
                }
            },
        }
    } else {
        match last_colon(s) {
            None => None,
            Some(k) => {
                let host = s.subrange(0, k);
                if no_colon(host) {
                    Some((host, s.subrange(k + 1, s.len() as int)))
                } else {
                    None
                }
            },
        }
    }
}

/// A valid `host:port` address.
pub open spec fn valid_host_port(s: Seq<char>) -> bool {
    s.len() > 0 && match split_host_port(s) {
        None => false,
        Some((h, p)) => valid_port(p) && valid_host(h),
    }
}

// ── Implementation ──────────────────────────────────────────────────────────

/// The number of bytes of `c` in UTF-8.
pub fn char_utf8_width(c: char) -> (w: usize)
    ensures
        w == utf8_width(c),
{
    let v = c as u32;
    if v < 0x80 {
        1
    } else if v < 0x800 {
        2
    } else if v < 0x10000 {
        3
    } else {
        4
    }
}

/// `str::len` computed from the characters, stopping once it exceeds `cap`.
fn utf8_len_capped(s: &[char], cap: usize) -> (r: usize)
    requires
        cap < usize::MAX - 4,
    ensures
        r <= cap <==> utf8_len(s@) <= cap,
{
    let mut total: usize = 0;
    let mut i: usize = 0;
    while i < s.len()
        invariant
            i <= s@.len(),
            cap < usize::MAX - 4,
            total == utf8_len(s@.subrange(0, i as int)),
            total <= cap,
        decreases s@.len() - i,
    {
        assert(s@.subrange(0, i + 1).drop_last() =~= s@.subrange(0, i as int));
        total = total + char_utf8_width(s[i]);
        i = i + 1;
        if total > cap {
            proof {
                lemma_utf8_len_prefix(s@, i as int);
            }
            return total;
        }
    }
    assert(s@.subrange(0, s@.len() as int) =~= s@);
    total
}

proof fn lemma_utf8_len_prefix(s: Seq<char>, i: int)
    requires
        0 <= i <= s.len(),
    ensures
        utf8_len(s.subrange(0, i)) <= utf8_len(s),
    decreases s.len() - i,
{
    if i < s.len() {
        lemma_utf8_len_prefix(s, i + 1);
        assert(s.subrange(0, i + 1).drop_last() =~= s.subrange(0, i));
    } else {
        assert(s.subrange(0, i) =~= s);
    }
}

fn is_valid_octet(o: &[char]) -> (r: bool)
    ensures
        r == valid_octet(o@),
{
    if o.len() < 1 || o.len() > 3 {
        return false;
    }
    if o.len() > 1 && o[0] == '0' {
        return false;
    }
    match parse_u64(o) {
        None => {
            proof {
                if all_digits(o@) {
                    assert(unsigned_digits(o@) == o@);
                    assert(digits_value(o@) <= 999) by {
                        lemma_digits_value_bound(o@);
                    }
                }
            }
            false
        },
        Some(v) => {
            proof {
                if o@[0] == '+' {
                    assert(!is_digit(o@[0]));
                } else {
                    assert(unsigned_digits(o@) == o@);
                }
            }
            if o[0] == '+' {
                false
            } else {
                v <= 255
            }
        },
    }
}

proof fn lemma_digits_value_bound(s: Seq<char>)
    requires
        all_digits(s),
        s.len() <= 3,
    ensures
        digits_value(s) < 1000,
    decreases s.len(),
{
    if s.len() > 0 {
        assert(all_digits(s.drop_last())) by {
            assert forall|i: int| 0 <= i < s.drop_last().len() implies is_digit(#[trigger] s.drop_last()[i]) by {
                assert(s.drop_last()[i] == s[i]);
            }
        }
        lemma_digits_value_bound(s.drop_last());
        lemma_digits_value_small(s.drop_last());
        assert(is_digit(s[s.len() - 1]));
    }
}

proof fn lemma_digits_value_small(s: Seq<char>)
    requires
        all_digits(s),
        s.len() <= 2,
    ensures
        digits_value(s) < 100,
    decreases s.len(),
{
    if s.len() > 0 {
        assert(all_digits(s.drop_last())) by {
            assert forall|i: int| 0 <= i < s.drop_last().len() implies is_digit(#[trigger] s.drop_last()[i]) by {
                assert(s.drop_last()[i] == s[i]);
            }
        }
        lemma_digits_value_one(s.drop_last());
        assert(is_digit(s[s.len() - 1]));
    }
}

proof fn lemma_digits_value_one(s: Seq<char>)
    requires
        all_digits(s),
        s.len() <= 1,
    ensures
        digits_value(s) < 10,
{
    if s.len() == 1 {
        assert(s.drop_last().len() == 0);
        assert(digits_value(s.drop_last()) == 0);
        assert(is_digit(s[0]));
        assert(s.last() == s[0]);
        assert((s[0] as u32) <= 57);
    }
}

fn is_valid_ipv4(h: &[char]) -> (r: bool)
    ensures
        r == valid_ipv4(h@),
{
    let parts = split_chars(h, '.');
    if parts.len() != 4 {
        return false;
    }
    let mut i: usize = 0;
    while i < 4
        invariant
            parts@.len() == 4 == split_on(h@, '.').len(),
            forall|k: int| 0 <= k < 4 ==> #[trigger] parts@[k]@ == split_on(h@, '.')[k],
            i <= 4,
            forall|k: int| 0 <= k < i ==> valid_octet(#[trigger] split_on(h@, '.')[k]),
        decreases 4 - i,
    {
        if !is_valid_octet(parts[i].as_slice()) {
            return false;
        }
        i = i + 1;
    }
    true
}

fn is_valid_label(l: &[char]) -> (r: bool)
    ensures
        r == valid_label(l@),
{
    if l.len() == 0 || l.len() > 63 {
        return false;
    }
    if !ascii_alnum(l[0]) || !ascii_alnum(l[l.len() - 1]) {
        return false;
    }
    let mut i: usize = 0;
    while i < l.len()
        invariant
            i <= l@.len(),
            forall|k: int| 0 <= k < i ==> (is_ascii_alnum(#[trigger] l@[k]) || l@[k] == '-'),
        decreases l@.len() - i,
    {
        if !(ascii_alnum(l[i]) || l[i] == '-') {
            return false;
        }
        i = i + 1;
    }
    true
}

fn all_labels_valid(h: &[char]) -> (r: bool)
    ensures
        r == forall|i: int|
            0 <= i < split_on(h@, '.').len() ==> valid_label(#[trigger] split_on(h@, '.')[i]),
{
    let parts = split_chars(h, '.');
    let mut i: usize = 0;
    while i < parts.len()
        invariant
            parts@.len() == split_on(h@, '.').len(),
            forall|k: int| 0 <= k < parts@.len() ==> #[trigger] parts@[k]@ == split_on(h@, '.')[k],
            i <= parts@.len(),
            forall|k: int| 0 <= k < i ==> valid_label(#[trigger] split_on(h@, '.')[k]),
        decreases parts@.len() - i,
    {
        if !is_valid_label(parts[i].as_slice()) {
            return false;
        }
        i = i + 1;
    }
    true
}

/// Whether `h` is a valid host.
pub fn is_valid_host(h: &[char]) -> (r: bool)
    ensures
        r == valid_host(h@),
{
    if h.len() == 0 {
        return false;
    }
    if utf8_len_capped(h, 253) > 253 {
        return false;
    }
    let mut i: usize = 0;
    while i < h.len()
        invariant
            i <= h@.len(),
            forall|k: int| 0 <= k < i ==> !is_ws(#[trigger] h@[k]),
        decreases h@.len() - i,
    {
        if is_whitespace(h[i]) {
            return false;
        }
        i = i + 1;
    }
    if is_valid_ipv4(h) {
        return true;
    }
    let hs = string_of(h);
    if ipv6_parses(hs.as_str()) {
        return true;
    }
    all_labels_valid(h)
}

/// Whether `p` is a valid port.
pub fn is_valid_port(p: &[char]) -> (r: bool)
    ensures
        r == valid_port(p@),
{
    match parse_u64(p) {
        None => false,
        Some(v) => v > 0 && v <= 65535,
    }
}

fn last_colon_exec(s: &[char]) -> (r: Option<usize>)
    ensures
        match r {
            Some(k) => k < s@.len() && last_colon(s@) == Some(k as int),
            None => last_colon(s@) is None,
        },
{
    let mut i: usize = s.len();
    while i > 0
        invariant
            i <= s@.len(),
            forall|j: int| i <= j < s@.len() ==> s@[j] != ':',
        decreases i,
    {
        if s[i - 1] == ':' {
            let k = i - 1;
            proof {
                let c = choose|c: int| 0 <= c < s@.len() && s@[c] == ':' && forall|j: int| c < j < s@.len() ==> s@[j] != ':';
                assert(0 <= k < s@.len() && s@[k as int] == ':' && forall|j: int| k < j < s@.len() ==> s@[j] != ':');
                if c < k {
                    assert(s@[k as int] != ':');
                } else if c > k {
                }
            }
            return Some(k);
        }
        i = i - 1;
    }
    None
}

fn has_colon(s: &[char]) -> (r: bool)
    ensures
        r == !no_colon(s@),
{
    match find_char(s, ':') {
        Some(_) => true,
        None => false,
    }
}

/// Splits `s` into its host and port parts (see `split_host_port`).
pub fn split_host_port_exec(s: &[char]) -> (r: Option<(Vec<char>, Vec<char>)>)
    ensures
        match r {
            None => split_host_port(s@) is None,
            Some((h, p)) => split_host_port(s@) == Some((h@, p@)),
        },
{
    if s.len() > 0 && s[0] == '[' {
        let rest = slice_range(s, 1, s.len());
        assert(rest@ =~= s@.drop_first());
        match find_char(rest.as_slice(), ']') {
            None => None,
            Some(end) => {
                let host = slice_range(rest.as_slice(), 0, end);
                let remainder = slice_range(rest.as_slice(), end + 1, rest.len());
                if remainder.len() > 0 && remainder[0] == ':' {
                    let port = slice_range(remainder.as_slice(), 1, remainder.len());
                    assert(port@ =~= remainder@.drop_first());
                    if has_colon(port.as_slice()) {
                        None
                    } else {
                        Some((host, port))
                    }
                } else {
                    None
                }
            },
        }
    } else {
        match last_colon_exec(s) {
            None => None,
            Some(k) => {
                let host = slice_range(s, 0, k);
                if has_colon(host.as_slice()) {
                    None
                } else {
                    let port = slice_range(s, k + 1, s.len());
                    Some((host, port))
                }
            },
        }
    }
}

/// Whether `s` is a valid `host:port` address.
pub fn is_valid_host_port(s: &[char]) -> (r: bool)
    ensures
        r == valid_host_port(s@),
{
    if s.len() == 0 {
        return false;
    }
    match split_host_port_exec(s) {
        None => false,
        Some((h, p)) => is_valid_port(p.as_slice()) && is_valid_host(h.as_slice()),
    }
}

/// Why an address was refused.
#[derive(Debug, Clone, Copy, PartialEq, Eq)]
pub enum AddressError {
    NotHostPort,
}

impl AddressError {
    /// The operator-facing message.
    pub fn message(&self) -> (r: String)
        ensures
            r@ == "device address must be host:port"@,
    {
        owned("device address must be host:port")
    }
}

/// The address with surrounding whitespace removed, when it is a valid
/// `host:port`.
pub fn normalize_address(address: &str) -> (r: Result<String, AddressError>)
    ensures
        match r {
            Ok(a) => valid_host_port(trim(address@)) && a@ == trim(address@),
            Err(_) => !valid_host_port(trim(address@)),
        },
{
    let chars = chars_of(address);
    let t = trim_chars(chars.as_slice());
    if is_valid_host_port(t.as_slice()) {
        Ok(string_of(t.as_slice()))
    } else {
        Err(AddressError::NotHostPort)
    }
}

} // verus!
