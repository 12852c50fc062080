//! Structured parsing of textual IP addresses.
//!
//! A desired address is only handed to the kernel once its text has been
//! parsed into a structured address; a text that parses as neither an IPv4
//! dotted quad nor an IPv6 address is a configuration error.  The grammar is
//! the standard textual form: four decimal octets without leading zeros for
//! IPv4; colon-separated groups of one to four hexadecimal digits for IPv6,
//! with at most one `::` compression standing for one or more zero groups,
//! and an optional trailing embedded IPv4 quad standing for the last two
//! groups.

use vstd::prelude::*;

use crate::addr::{all_dec_digits, dec_val, first_index_of, find_char, has_char, lemma_first_index,
    s_len};

verus! {

/// A structured IP address: four octets, or eight 16-bit groups.
#[derive(Debug, Clone, Copy, PartialEq, Eq, Structural)]
pub enum IpAddress {
    V4 { a: u8, b: u8, c: u8, d: u8 },
    V6 { g0: u16, g1: u16, g2: u16, g3: u16, g4: u16, g5: u16, g6: u16, g7: u16 },
}

/// Decimal values below ten to the length, for the short digit strings that
/// make up octets.
pub proof fn lemma_dec_val_len_bound(s: Seq<char>)
    requires
        all_dec_digits(s),
        s.len() <= 3,
    ensures
        s.len() == 0 ==> dec_val(s) == 0,
        s.len() == 1 ==> 0 <= dec_val(s) <= 9,
        s.len() == 2 ==> 0 <= dec_val(s) <= 99,
        s.len() == 3 ==> 0 <= dec_val(s) <= 999,
    decreases s.len(),
{
    if s.len() > 0 {
        assert(all_dec_digits(s.drop_last()));
        lemma_dec_val_len_bound(s.drop_last());
    }
}

/// A decimal octet: one to three digits, no leading zero unless the octet is
/// `0` itself, value at most 255.
pub open spec fn spec_octet(s: Seq<char>) -> Option<u8> {
    if 1 <= s.len() <= 3 && all_dec_digits(s) && (s.len() == 1 || s[0] != '0') && dec_val(s)
        <= 255 {
        Some(dec_val(s) as u8)
    } else {
        None
    }
}

/// Parse one decimal octet.
pub fn parse_octet(s: &str) -> (r: Option<u8>)
    ensures
        r == spec_octet(s@),
{
    let len = s.unicode_len();
    if len < 1 || len > 3 {
        return None;
    }
    if len > 1 && s.get_char(0) == '0' {
        return None;
    }
    let mut i: usize = 0;
    let mut acc: u32 = 0;
    while i < len
        invariant
            len == s@.len(),
            1 <= len <= 3,
            0 <= i <= len,
            all_dec_digits(s@.subrange(0, i as int)),
            acc == dec_val(s@.subrange(0, i as int)),
            acc <= 999,
        decreases len - i,
    {
        let c = s.get_char(i);
        let v = c as u32;
        if v < 48 || v > 57 {
            proof {
                assert(!all_dec_digits(s@));
            }
            return None;
        }
        proof {
            assert(s@.subrange(0, (i + 1) as int).drop_last() =~= s@.subrange(0, i as int));
            assert(s@.subrange(0, (i + 1) as int).last() == s@[i as int]);
            lemma_dec_val_len_bound(s@.subrange(0, i as int));
        }
        acc = acc * 10 + (v - 48);
        proof {
            lemma_dec_val_len_bound(s@.subrange(0, (i + 1) as int));
        }
        i += 1;
    }
    proof {
        assert(s@.subrange(0, len as int) =~= s@);
    }
    if acc > 255 {
        None
    } else {
        Some(acc as u8)
    }
}

/// The dot-separated octet list of a dotted-quad text, parsed left to right.
pub open spec fn spec_octets(s: Seq<char>) -> Option<Seq<u8>>
    decreases s.len(),
{
    if !has_char(s, '.') {
        match spec_octet(s) {
            Some(v) => Some(seq![v]),
            None => None,
        }
    } else {
        let k = first_index_of(s, '.');
        if 0 <= k < s.len() {
            match spec_octet(s.subrange(0, k)) {
                Some(h) => match spec_octets(s.subrange(k + 1, s.len() as int)) {
                    Some(t) => Some(seq![h] + t),
                    None => None,
                },
                None => None,
            }
        } else {
            None
        }
    }
}

/// An IPv4 address text: exactly four octets.
pub open spec fn spec_parse_ipv4(s: Seq<char>) -> Option<Seq<u8>> {
    match spec_octets(s) {
        Some(o) => if o.len() == 4 {
            Some(o)
        } else {
            None
        },
        None => None,
    }
}

/// Parse a dot-separated octet list.
pub fn parse_octets(s: &str) -> (r: Option<Vec<u8>>)
    ensures
        match r {
            Some(v) => spec_octets(s@) == Some(v@),
            None => spec_octets(s@) is None,
        },
    decreases s@.len(),
{
    match find_char(s, '.') {
        None => {
            match parse_octet(s) {
                Some(v) => {
                    let mut out: Vec<u8> = Vec::new();
                    out.push(v);
                    proof {
                        assert(out@ =~= seq![v]);
                    }
                    Some(out)
                },
                None => None,
            }
        },
        Some(k) => {
            let len = s_len(s);
            let head = s.substring_char(0, k);
            let tail = s.substring_char(k + 1, len);
            match parse_octet(head) {
                Some(h) => {
                    match parse_octets(tail) {
                        Some(t) => {
                            let mut out: Vec<u8> = Vec::new();
                            out.push(h);
                            let mut t = t;
                            out.append(&mut t);
                            proof {
                                assert(out@ =~= seq![h] + spec_octets(
                                    s@.subrange(k as int + 1, s@.len() as int),
                                ).unwrap());
                            }
                            Some(out)
                        },
                        None => None,
                    }
                },
                None => None,
            }
        },
    }
}

/// Parse an IPv4 address text into its four octets.
pub fn parse_ipv4(s: &str) -> (r: Option<(u8, u8, u8, u8)>)
    ensures
        match r {
            Some(o) => spec_parse_ipv4(s@) == Some(seq![o.0, o.1, o.2, o.3]),
            None => spec_parse_ipv4(s@) is None,
        },
{
    match parse_octets(s) {
        Some(o) => {
            if o.len() == 4 {
                let r = (o[0], o[1], o[2], o[3]);
                proof {
                    assert(o@ =~= seq![r.0, r.1, r.2, r.3]);
                }
                Some(r)
            } else {
                None
            }
        },
        None => None,
    }
}

/// Is `c` a hexadecimal digit (either case)?
pub open spec fn is_hex_digit(c: char) -> bool {
    ||| 48 <= c as int <= 57
    ||| 97 <= c as int <= 102
    ||| 65 <= c as int <= 70
}

/// Numeric value of a hexadecimal digit.
pub open spec fn hex_digit_val(c: char) -> int {
    if 48 <= c as int <= 57 {
        c as int - 48
    } else if 97 <= c as int <= 102 {
        c as int - 87
    } else {
        c as int - 55
    }
}

pub open spec fn all_hex_digits(s: Seq<char>) -> bool {
    forall|i: int| 0 <= i < s.len() ==> is_hex_digit(s[i])
}

/// Numeric value of a hexadecimal digit string.
pub open spec fn hex_val(s: Seq<char>) -> int
    decreases s.len(),
{
    if s.len() == 0 {
        0
    } else {
        hex_val(s.drop_last()) * 16 + hex_digit_val(s.last())
    }
}

pub proof fn lemma_hex_val_len_bound(s: Seq<char>)
    requires
        all_hex_digits(s),
        s.len() <= 4,
    ensures
        s.len() == 0 ==> hex_val(s) == 0,
        s.len() == 1 ==> 0 <= hex_val(s) <= 0xf,
        s.len() == 2 ==> 0 <= hex_val(s) <= 0xff,
        s.len() == 3 ==> 0 <= hex_val(s) <= 0xfff,
        s.len() == 4 ==> 0 <= hex_val(s) <= 0xffff,
    decreases s.len(),
{
    if s.len() > 0 {
        assert(all_hex_digits(s.drop_last()));
        lemma_hex_val_len_bound(s.drop_last());
    }
}

/// A hexadecimal group of an IPv6 address: one to four hexadecimal digits.
pub open spec fn spec_hex_group(s: Seq<char>) -> Option<u16> {
    if 1 <= s.len() <= 4 && all_hex_digits(s) {
        Some(hex_val(s) as u16)
    } else {
        None
    }
}

/// Parse one hexadecimal group.
pub fn parse_hex_group(s: &str) -> (r: Option<u16>)
    ensures
        r == spec_hex_group(s@),
{
    let len = s.unicode_len();
    if len < 1 || len > 4 {
        return None;
    }
    let mut i: usize = 0;
    let mut acc: u32 = 0;
    while i < len
        invariant
            len == s@.len(),
            1 <= len <= 4,
            0 <= i <= len,
            all_hex_digits(s@.subrange(0, i as int)),
            acc == hex_val(s@.subrange(0, i as int)),
            acc <= 0xffff,
        decreases len - i,
    {
        let c = s.get_char(i);
        let v = c as u32;
        let d: u32 = if 48 <= v && v <= 57 {
            v - 48
        } else if 97 <= v && v <= 102 {
            v - 87
        } else if 65 <= v && v <= 70 {
            v - 55
        } else {
            proof {
                assert(!all_hex_digits(s@));
            }
            return None;
        };
        proof {
            assert(s@.subrange(0, (i + 1) as int).drop_last() =~= s@.subrange(0, i as int));
            assert(s@.subrange(0, (i + 1) as int).last() == s@[i as int]);
            lemma_hex_val_len_bound(s@.subrange(0, i as int));
        }
        acc = acc * 16 + d;
        proof {
            lemma_hex_val_len_bound(s@.subrange(0, (i + 1) as int));
        }
        i += 1;
    }
    proof {
        assert(s@.subrange(0, len as int) =~= s@);
        lemma_hex_val_len_bound(s@);
    }
    Some(acc as u16)
}

/// The colon-separated group list of (part of) an IPv6 address text, parsed
/// left to right.  Only the final piece may be an embedded IPv4 quad, which
/// stands for two groups, and only when `allow_v4` holds.
pub open spec fn spec_groups(s: Seq<char>, allow_v4: bool) -> Option<Seq<u16>>
    decreases s.len(),
{
    if !has_char(s, ':') {
        if spec_hex_group(s) is Some {
            Some(seq![spec_hex_group(s).unwrap()])
        } else if allow_v4 {
            match spec_parse_ipv4(s) {
                Some(o) => Some(
                    seq![
                        (o[0] as int * 256 + o[1] as int) as u16,
                        (o[2] as int * 256 + o[3] as int) as u16,
                    ],
                ),
                None => None,
            }
        } else {
            None
        }
    } else {
        let k = first_index_of(s, ':');
        if 0 <= k < s.len() {
            match spec_hex_group(s.subrange(0, k)) {
                Some(h) => match spec_groups(s.subrange(k + 1, s.len() as int), allow_v4) {
                    Some(t) => Some(seq![h] + t),
                    None => None,
                },
                None => None,
            }
        } else {
            None
        }
    }
}

/// Parse a colon-separated group list.
pub fn parse_groups(s: &str, allow_v4: bool) -> (r: Option<Vec<u16>>)
    ensures
        match r {
            Some(v) => spec_groups(s@, allow_v4) == Some(v@),
            None => spec_groups(s@, allow_v4) is None,
        },
    decreases s@.len(),
{
    match find_char(s, ':') {
        None => {
            match parse_hex_group(s) {
                Some(h) => {
                    let mut out: Vec<u16> = Vec::new();
                    out.push(h);
                    proof {
                        assert(out@ =~= seq![h]);
                    }
                    Some(out)
                },
                None => {
                    if allow_v4 {
                        match parse_ipv4(s) {
                            Some(o) => {
                                let hi: u16 = (o.0 as u16) * 256 + (o.1 as u16);
                                let lo: u16 = (o.2 as u16) * 256 + (o.3 as u16);
                                let mut out: Vec<u16> = Vec::new();
                                out.push(hi);
                                out.push(lo);
                                proof {
                                    assert(out@ =~= seq![hi, lo]);
                                }
                                Some(out)
                            },
                            None => None,
                        }
                    } else {
                        None
                    }
                },
            }
        },
        Some(k) => {
            let len = s_len(s);
            let head = s.substring_char(0, k);
            let tail = s.substring_char(k + 1, len);
            match parse_hex_group(head) {
                Some(h) => {
                    match parse_groups(tail, allow_v4) {
                        Some(t) => {
                            let mut out: Vec<u16> = Vec::new();
                            out.push(h);
                            let mut t = t;
                            out.append(&mut t);
                            proof {
                                assert(out@ =~= seq![h] + spec_groups(
                                    s@.subrange(k as int + 1, s@.len() as int),
                                    allow_v4,
                                ).unwrap());
                            }
                            Some(out)
                        },
                        None => None,
                    }
                },
                None => None,
            }
        },
    }
}

/// Does a `::` pair start at position `i`?
pub open spec fn dc_pair_at(s: Seq<char>, i: int) -> bool {
    0 <= i < s.len() - 1 && s[i] == ':' && s[i + 1] == ':'
}

/// Number of positions at which a `::` pair starts.
pub open spec fn dc_count(s: Seq<char>) -> int
    decreases s.len(),
{
    if s.len() < 2 {
        0
    } else {
        dc_count(s.drop_last()) + if s[s.len() - 2] == ':' && s[s.len() - 1] == ':' {
            1int
        } else {
            0int
        }
    }
}

/// Position of the first `::` pair (meaningful when one exists).
pub open spec fn dc_first(s: Seq<char>) -> int
    decreases s.len(),
{
    if s.len() < 2 {
        0
    } else if s[0] == ':' && s[1] == ':' {
        0
    } else {
        1 + dc_first(s.drop_first())
    }
}

/// A pair with no earlier pair is the first.
pub proof fn lemma_dc_first_unique(s: Seq<char>, f: int)
    requires
        dc_pair_at(s, f),
        forall|j: int| 0 <= j < f ==> !dc_pair_at(s, j),
    ensures
        dc_first(s) == f,
    decreases s.len(),
{
    if f == 0 {
    } else {
        assert(!dc_pair_at(s, 0));
        let t = s.drop_first();
        assert(dc_pair_at(t, f - 1)) by {
            assert(t[f - 1] == s[f]);
            assert(t[f] == s[f + 1]);
        }
        assert forall|j: int| 0 <= j < f - 1 implies !dc_pair_at(t, j) by {
            assert(t[j] == s[j + 1]);
            if j + 1 < t.len() {
                assert(t[j + 1] == s[j + 2]);
            }
            assert(!dc_pair_at(s, j + 1));
        }
        lemma_dc_first_unique(t, f - 1);
    }
}

/// All-zero group run standing for a `::` compression.
pub open spec fn zero_groups(n: int) -> Seq<u16> {
    Seq::new(n as nat, |i: int| 0u16)
}

/// An IPv6 address text: eight groups, or fewer with a single `::`
/// compression standing for the missing zero groups.
pub open spec fn spec_parse_ipv6(s: Seq<char>) -> Option<Seq<u16>> {
    if dc_count(s) == 0 {
        match spec_groups(s, true) {
            Some(g) => if g.len() == 8 {
                Some(g)
            } else {
                None
            },
            None => None,
        }
    } else if dc_count(s) == 1 {
        let f = dc_first(s);
        if 0 <= f && f + 2 <= s.len() {
            let left = s.subrange(0, f);
            let right = s.subrange(f + 2, s.len() as int);
            let gl = if left.len() == 0 {
                Some(Seq::<u16>::empty())
            } else {
                spec_groups(left, false)
            };
            let gr = if right.len() == 0 {
                Some(Seq::<u16>::empty())
            } else {
                spec_groups(right, true)
            };
            match gl {
                Some(a) => match gr {
                    Some(b) => if a.len() + b.len() <= 7 {
                        Some(a + zero_groups(8 - a.len() - b.len()) + b)
                    } else {
                        None
                    },
                    None => None,
                },
                None => None,
            }
        } else {
            None
        }
    } else {
        None
    }
}

/// Parse an IPv6 address text into its eight groups.
pub fn parse_ipv6(s: &str) -> (r: Option<Vec<u16>>)
    ensures
        match r {
            Some(v) => spec_parse_ipv6(s@) == Some(v@) && v@.len() == 8,
            None => spec_parse_ipv6(s@) is None,
        },
{
    let len = s.unicode_len();
    let mut cnt: usize = 0;
    let mut fd: usize = 0;
    let mut found = false;
    let mut i: usize = 1;
    while i < len
        invariant
            len == s@.len(),
            1 <= i,
            i <= len || (len <= 1 && i == 1),
            cnt == dc_count(s@.subrange(0, if i <= len {
                i as int
            } else {
                len as int
            })),
            cnt <= i,
            found ==> dc_pair_at(s@, fd as int) && forall|j: int|
                0 <= j < fd ==> !dc_pair_at(s@, j),
            !found ==> forall|j: int| 0 <= j < i - 1 ==> !dc_pair_at(s@, j),
            found ==> cnt >= 1,
            !found ==> cnt == 0,
        decreases len - i,
    {
        proof {
            assert(s@.subrange(0, (i + 1) as int).drop_last() =~= s@.subrange(0, i as int));
            assert(s@.subrange(0, (i + 1) as int).last() == s@[i as int]);
            assert(s@.subrange(0, (i + 1) as int)[i - 1] == s@[i - 1]);
        }
        if s.get_char(i - 1) == ':' && s.get_char(i) == ':' {
            if !found {
                fd = i - 1;
                found = true;
            }
            cnt = cnt + 1;
        }
        i += 1;
    }
    proof {
        if len >= 1 {
            assert(s@.subrange(0, len as int) =~= s@);
        } else {
            assert(dc_count(s@) == 0);
        }
    }
    if cnt == 0 {
        match parse_groups(s, true) {
            Some(g) => {
                if g.len() == 8 {
                    Some(g)
                } else {
                    None
                }
            },
            None => None,
        }
    } else if cnt == 1 {
        proof {
            lemma_dc_first_unique(s@, fd as int);
        }
        let left = s.substring_char(0, fd);
        let right = s.substring_char(fd + 2, len);
        let gl: Vec<u16> = if fd == 0 {
            Vec::new()
        } else {
            match parse_groups(left, false) {
                Some(a) => a,
                None => {
                    return None;
                },
            }
        };
        proof {
            if fd == 0 {
                assert(s@.subrange(0, fd as int).len() == 0);
                assert(gl@ =~= Seq::<u16>::empty());
            }
        }
        let gr: Vec<u16> = if fd + 2 == len {
            Vec::new()
        } else {
            match parse_groups(right, true) {
                Some(b) => b,
                None => {
                    return None;
                },
            }
        };
        proof {
            if fd + 2 == len {
                assert(s@.subrange(fd as int + 2, len as int).len() == 0);
                assert(gr@ =~= Seq::<u16>::empty());
            }
        }
        let nl = gl.len();
        let nr = gr.len();
        if nl <= 7 && nr <= 7 - nl {
            let ghost a = gl@;
            let ghost b = gr@;
            let mut out = gl;
            let zeros = 8 - nl - nr;
            let mut z: usize = 0;
            while z < zeros
                invariant
                    0 <= z <= zeros,
                    out@ =~= a + zero_groups(z as int),
                decreases zeros - z,
            {
                out.push(0u16);
                proof {
                    assert((a + zero_groups(z as int)).push(0u16) =~= a + zero_groups(
                        z as int + 1,
                    ));
                }
                z += 1;
            }
            let mut gr = gr;
            out.append(&mut gr);
            proof {
                assert(out@ =~= a + zero_groups(zeros as int) + b);
                assert(out@.len() == 8);
            }
            Some(out)
        } else {
            None
        }
    } else {
        None
    }
}

/// The structured value of an address text: IPv6 when the text contains a
/// colon, IPv4 otherwise; `None` when the text is malformed.
pub open spec fn spec_parse_ip(s: Seq<char>) -> Option<IpAddress> {
    if has_char(s, ':') {
        match spec_parse_ipv6(s) {
            Some(g) => Some(
                IpAddress::V6 {
                    g0: g[0],
                    g1: g[1],
                    g2: g[2],
                    g3: g[3],
                    g4: g[4],
                    g5: g[5],
                    g6: g[6],
                    g7: g[7],
                },
            ),
            None => None,
        }
    } else {
        match spec_parse_ipv4(s) {
            Some(o) => Some(IpAddress::V4 { a: o[0], b: o[1], c: o[2], d: o[3] }),
            None => None,
        }
    }
}

/// Convert an address text to a structured address, deciding the family by
/// the presence of a colon, exactly as [`spec_parse_ip`] describes.
pub fn ip_addr_str_to_enum(address: &str) -> (r: Option<IpAddress>)
    ensures
        r == spec_parse_ip(address@),
{
    if crate::addr::is_ipv6_addr(address) {
        match parse_ipv6(address) {
            Some(g) => Some(
                IpAddress::V6 {
                    g0: g[0],
                    g1: g[1],
                    g2: g[2],
                    g3: g[3],
                    g4: g[4],
                    g5: g[5],
                    g6: g[6],
                    g7: g[7],
                },
            ),
            None => None,
        }
    } else {
        match parse_ipv4(address) {
            Some(o) => Some(IpAddress::V4 { a: o.0, b: o.1, c: o.2, d: o.3 }),
            None => None,
        }
    }
}

} // verus!
