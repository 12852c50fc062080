//! Textual address classification.
//!
//! A textual address is treated as IPv6 exactly when it contains a colon;
//! IPv6 unicast link-local addresses (the `fe80::/10` block, recognised at
//! hexadecimal-nibble granularity by their first three characters) are the
//! addresses the kernel assigns autonomously and the reconciler must be
//! careful not to delete.

use vstd::prelude::*;

verus! {

/// Does `s` contain the character `c` anywhere?
pub open spec fn has_char(s: Seq<char>, c: char) -> bool {
    exists|i: int| 0 <= i < s.len() && s[i] == c
}

/// Index of the first occurrence of `c` in `s` (meaningful only when
/// `has_char(s, c)` holds).
pub open spec fn first_index_of(s: Seq<char>, c: char) -> int
    decreases s.len(),
{
    if s.len() == 0 {
        0
    } else if s[0] == c {
        0
    } else {
        1 + first_index_of(s.drop_first(), c)
    }
}

/// `first_index_of` returns a position of `c` before which `c` does not occur.
pub proof fn lemma_first_index(s: Seq<char>, c: char)
    requires
        has_char(s, c),
    ensures
        0 <= first_index_of(s, c) < s.len(),
        s[first_index_of(s, c)] == c,
        forall|j: int| 0 <= j < first_index_of(s, c) ==> s[j] != c,
    decreases s.len(),
{
    if s[0] == c {
    } else {
        assert(s.drop_first().len() == s.len() - 1);
        assert(has_char(s.drop_first(), c)) by {
            let i = choose|i: int| 0 <= i < s.len() && s[i] == c;
            assert(s.drop_first()[i - 1] == s[i]);
        }
        lemma_first_index(s.drop_first(), c);
        let k = first_index_of(s, c);
        assert(s[k] == s.drop_first()[k - 1]);
        assert forall|j: int| 0 <= j < k implies s[j] != c by {
            if j > 0 {
                assert(s[j] == s.drop_first()[j - 1]);
            }
        }
    }
}

/// Exec scan for a character; the basis of every classifier below.
pub fn find_char(s: &str, c: char) -> (r: Option<usize>)
    ensures
        match r {
            Some(k) => {
                &&& k < s@.len()
                &&& s@[k as int] == c
                &&& forall|j: int| 0 <= j < k ==> s@[j] != c
                &&& has_char(s@, c)
                &&& k == first_index_of(s@, c)
            },
            None => !has_char(s@, c),
        },
{
    let len = s.unicode_len();
    let mut i: usize = 0;
    while i < len
        invariant
            len == s@.len(),
            0 <= i <= len,
            forall|j: int| 0 <= j < i ==> s@[j] != c,
        decreases len - i,
    {
        if s.get_char(i) == c {
            proof {
                lemma_first_index(s@, c);
                let fi = first_index_of(s@, c);
                assert(!(fi < i));
                assert(!(i < fi));
            }
            return Some(i);
        }
        i += 1;
    }
    None
}

/// A textual address is IPv6 exactly when it contains a colon.
pub fn is_ipv6_addr(addr: &str) -> (r: bool)
    ensures
        r == has_char(addr@, ':'),
{
    match find_char(addr, ':') {
        Some(_) => true,
        None => false,
    }
}

/// Spec view of [`is_ipv6_unicast_link_local_full`]: an IPv6 address text in
/// `fe80::/10` (first three characters `fe8`, `fe9`, `fea` or `feb`) with a
/// prefix length of at least 10.
pub open spec fn spec_is_unicast_link_local(ip: Seq<char>, prefix_len: u8) -> bool {
    &&& has_char(ip, ':')
    &&& ip.len() >= 3
    &&& ip[0] == 'f'
    &&& ip[1] == 'e'
    &&& (ip[2] == '8' || ip[2] == '9' || ip[2] == 'a' || ip[2] == 'b')
    &&& prefix_len >= 10
}

/// Is `ip` with the given prefix length an IPv6 unicast link-local address?
pub fn is_ipv6_unicast_link_local_full(ip: &str, prefix_len: u8) -> (r: bool)
    ensures
        r == spec_is_unicast_link_local(ip@, prefix_len),
{
    if !is_ipv6_addr(ip) {
        return false;
    }
    if s_len(ip) < 3 {
        return false;
    }
    if prefix_len < 10 {
        return false;
    }
    let c0 = ip.get_char(0);
    let c1 = ip.get_char(1);
    let c2 = ip.get_char(2);
    c0 == 'f' && c1 == 'e' && (c2 == '8' || c2 == '9' || c2 == 'a' || c2 == 'b')
}

/// Character count of a string slice.
pub fn s_len(s: &str) -> (l: usize)
    ensures
        l == s@.len(),
{
    s.unicode_len()
}

/// Are two string slices equal character for character?
pub fn str_eq(a: &str, b: &str) -> (r: bool)
    ensures
        r == (a@ == b@),
{
    let la = a.unicode_len();
    let lb = b.unicode_len();
    if la != lb {
        proof {
            assert(a@ != b@);
        }
        return false;
    }
    let mut i: usize = 0;
    while i < la
        invariant
            la == a@.len(),
            la == b@.len(),
            0 <= i <= la,
            forall|j: int| 0 <= j < i ==> a@[j] == b@[j],
        decreases la - i,
    {
        if a.get_char(i) != b.get_char(i) {
            return false;
        }
        i += 1;
    }
    proof {
        assert(a@ =~= b@);
    }
    true
}

/// Is `c` a decimal digit?
pub open spec fn is_dec_digit(c: char) -> bool {
    48 <= c as int <= 57
}

pub open spec fn all_dec_digits(s: Seq<char>) -> bool {
    forall|i: int| 0 <= i < s.len() ==> is_dec_digit(s[i])
}

/// Numeric value of a decimal digit string (meaningful when all characters
/// are decimal digits).
pub open spec fn dec_val(s: Seq<char>) -> int
    decreases s.len(),
{
    if s.len() == 0 {
        0
    } else {
        dec_val(s.drop_last()) * 10 + (s.last() as int - 48)
    }
}

pub proof fn lemma_dec_val_nonneg(s: Seq<char>)
    requires
        all_dec_digits(s),
    ensures
        dec_val(s) >= 0,
    decreases s.len(),
{
    if s.len() > 0 {
        assert(all_dec_digits(s.drop_last()));
        lemma_dec_val_nonneg(s.drop_last());
    }
}

/// The strings accepted by the standard unsigned-integer parser: an optional
/// leading `+`, then one or more decimal digits, value at most 255.
pub open spec fn spec_parse_u8(s: Seq<char>) -> Option<u8> {
    let digits = if s.len() > 0 && s[0] == '+' {
        s.drop_first()
    } else {
        s
    };
    if digits.len() > 0 && all_dec_digits(digits) && dec_val(digits) <= 255 {
        Some(dec_val(digits) as u8)
    } else {
        None
    }
}

/// Parse a `u8` from decimal text, accepting exactly what
/// [`spec_parse_u8`] describes.
pub fn parse_u8(s: &str) -> (r: Option<u8>)
    ensures
        r == spec_parse_u8(s@),
{
    let len = s.unicode_len();
    let mut start: usize = 0;
    if len > 0 && s.get_char(0) == '+' {
        start = 1;
    }
    let ghost digits: Seq<char> = if s@.len() > 0 && s@[0] == '+' {
        s@.drop_first()
    } else {
        s@
    };
    proof {
        assert(digits =~= s@.subrange(start as int, len as int));
    }
    if start == len {
        return None;
    }
    let mut i: usize = start;
    let mut acc: u32 = 0;
    let mut over = false;
    while i < len
        invariant
            len == s@.len(),
            start <= i <= len,
            start as int == if s@.len() > 0 && s@[0] == '+' {
                1int
            } else {
                0int
            },
            digits =~= s@.subrange(start as int, len as int),
            all_dec_digits(s@.subrange(start as int, i as int)),
            !over ==> acc <= 255 && acc == dec_val(s@.subrange(start as int, i as int)),
            over ==> dec_val(s@.subrange(start as int, i as int)) > 255,
        decreases len - i,
    {
        let c = s.get_char(i);
        let v = c as u32;
        if v < 48 || v > 57 {
            proof {
                assert(digits[i - start] == s@[i as int]);
                assert(!is_dec_digit(digits[i - start]));
                assert(!all_dec_digits(digits));
            }
            return None;
        }
        proof {
            assert(s@.subrange(start as int, (i + 1) as int).drop_last() =~= s@.subrange(
                start as int,
                i as int,
            ));
            assert(s@.subrange(start as int, (i + 1) as int).last() == s@[i as int]);
        }
        if !over {
            acc = acc * 10 + (v - 48);
            if acc > 255 {
                over = true;
            }
        } else {
            proof {
                lemma_dec_val_nonneg(s@.subrange(start as int, i as int));
            }
        }
        i += 1;
    }
    proof {
        assert(s@.subrange(start as int, len as int) =~= digits);
    }
    if over {
        proof {
            assert(dec_val(digits) > 255);
        }
        None
    } else {
        Some(acc as u8)
    }
}

/// Spec view of the one-argument [`is_ipv6_unicast_link_local`]: the text
/// splits as `address/prefix` around a single `/`, the suffix parses as a
/// `u8`, and the address part is unicast link-local under that prefix.
pub open spec fn spec_is_unicast_link_local_text(s: Seq<char>) -> bool {
    exists|k: int|
        {
            &&& 0 <= k < s.len()
            &&& s[k] == '/'
            &&& !has_char(s.subrange(0, k), '/')
            &&& !has_char(s.subrange(k + 1, s.len() as int), '/')
            &&& match spec_parse_u8(s.subrange(k + 1, s.len() as int)) {
                Some(p) => spec_is_unicast_link_local(s.subrange(0, k), p),
                None => false,
            }
        }
}

/// Classify a combined `address/prefix` text; false whenever the text does
/// not have exactly one `/` or the suffix is not a valid prefix length.
pub fn is_ipv6_unicast_link_local(address_full: &str) -> (r: bool)
    ensures
        r == spec_is_unicast_link_local_text(address_full@),
{
    let len = address_full.unicode_len();
    let k = match find_char(address_full, '/') {
        Some(k) => k,
        None => {
            return false;
        },
    };
    // Reject a second slash after position k.
    let mut j: usize = k + 1;
    while j < len
        invariant
            len == address_full@.len(),
            k < j <= len,
            address_full@[k as int] == '/',
            forall|t: int| 0 <= t < k ==> address_full@[t] != '/',
            forall|t: int| k < t < j ==> address_full@[t] != '/',
        decreases len - j,
    {
        if address_full.get_char(j) == '/' {
            proof {
                let s = address_full@;
                assert forall|t: int|
                    !({
                        &&& 0 <= t < s.len()
                        &&& s[t] == '/'
                        &&& !has_char(s.subrange(0, t), '/')
                        &&& !has_char(s.subrange(t + 1, s.len() as int), '/')
                        &&& match spec_parse_u8(s.subrange(t + 1, s.len() as int)) {
                            Some(p) => spec_is_unicast_link_local(s.subrange(0, t), p),
                            None => false,
                        }
                    }) by {
                    if 0 <= t < s.len() && s[t] == '/' {
                        if t <= k {
                            assert(t == k);
                            assert(s.subrange(t + 1, s.len() as int)[j - t - 1] == '/');
                        } else {
                            assert(s.subrange(0, t)[k as int] == '/');
                        }
                    }
                }
            }
            return false;
        }
        j += 1;
    }
    let ip = address_full.substring_char(0, k);
    let suffix = address_full.substring_char(k + 1, len);
    let r = match parse_u8(suffix) {
        Some(p) => is_ipv6_unicast_link_local_full(ip, p),
        None => false,
    };
    proof {
        let s = address_full@;
        if r {
            assert(spec_is_unicast_link_local_text(s)) by {
                assert({
                    &&& 0 <= k < s.len()
                    &&& s[k as int] == '/'
                    &&& !has_char(s.subrange(0, k as int), '/')
                    &&& !has_char(s.subrange(k as int + 1, s.len() as int), '/')
                    &&& match spec_parse_u8(s.subrange(k as int + 1, s.len() as int)) {
                        Some(p) => spec_is_unicast_link_local(s.subrange(0, k as int), p),
                        None => false,
                    }
                });
            }
        } else {
            assert forall|t: int|
                !({
                    &&& 0 <= t < s.len()
                    &&& s[t] == '/'
                    &&& !has_char(s.subrange(0, t), '/')
                    &&& !has_char(s.subrange(t + 1, s.len() as int), '/')
                    &&& match spec_parse_u8(s.subrange(t + 1, s.len() as int)) {
                        Some(p) => spec_is_unicast_link_local(s.subrange(0, t), p),
                        None => false,
                    }
                }) by {
                if 0 <= t < s.len() && s[t] == '/' && !has_char(s.subrange(0, t), '/') {
                    assert(t == k) by {
                        if t < k {
                            assert(s[t] != '/');
                        } else if t > k {
                            assert(s.subrange(0, t)[k as int] == '/');
                        }
                    }
                }
            }
        }
    }
    r
}

/// Decimal digit character for a value below ten.
pub open spec fn dec_digit_char(d: int) -> char {
    if d == 0 {
        '0'
    } else if d == 1 {
        '1'
    } else if d == 2 {
        '2'
    } else if d == 3 {
        '3'
    } else if d == 4 {
        '4'
    } else if d == 5 {
        '5'
    } else if d == 6 {
        '6'
    } else if d == 7 {
        '7'
    } else if d == 8 {
        '8'
    } else {
        '9'
    }
}

/// Decimal rendering of a `u8`, without leading zeros.
pub open spec fn spec_u8_str(n: u8) -> Seq<char> {
    if n < 10 {
        seq![dec_digit_char(n as int)]
    } else if n < 100 {
        seq![dec_digit_char(n as int / 10), dec_digit_char(n as int % 10)]
    } else {
        seq![
            dec_digit_char(n as int / 100),
            dec_digit_char((n as int / 10) % 10),
            dec_digit_char(n as int % 10),
        ]
    }
}

/// Single decimal digit as a string slice.
fn digit_str(d: u8) -> (s: &'static str)
    requires
        d < 10,
    ensures
        s@ =~= seq![dec_digit_char(d as int)],
{
    proof {
        reveal_strlit("0");
        reveal_strlit("1");
        reveal_strlit("2");
        reveal_strlit("3");
        reveal_strlit("4");
        reveal_strlit("5");
        reveal_strlit("6");
        reveal_strlit("7");
        reveal_strlit("8");
        reveal_strlit("9");
    }
    match d {
        0 => "0",
        1 => "1",
        2 => "2",
        3 => "3",
        4 => "4",
        5 => "5",
        6 => "6",
        7 => "7",
        8 => "8",
        _ => "9",
    }
}

/// Render a `u8` in decimal.
pub fn u8_dec_string(n: u8) -> (s: String)
    ensures
        s@ =~= spec_u8_str(n),
{
    if n < 10 {
        String::from_str(digit_str(n))
    } else if n < 100 {
        String::from_str(digit_str(n / 10)).concat(digit_str(n % 10))
    } else {
        String::from_str(digit_str(n / 100)).concat(digit_str((n / 10) % 10)).concat(
            digit_str(n % 10),
        )
    }
}

/// The `address/prefixLength` key under which an observed address record is
/// filed in the observed index.
pub open spec fn spec_addr_key(address: Seq<char>, prefix_len: u8) -> Seq<char> {
    address + seq!['/'] + spec_u8_str(prefix_len)
}

/// Build the `address/prefixLength` key of an address.
pub fn addr_key(address: &str, prefix_len: u8) -> (k: String)
    ensures
        k@ =~= spec_addr_key(address@, prefix_len),
{
    proof {
        reveal_strlit("/");
        assert("/"@ =~= seq!['/']);
    }
    String::from_str(address).concat("/").concat(u8_dec_string(prefix_len).as_str())
}

} // verus!
