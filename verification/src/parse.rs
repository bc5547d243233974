//! Text parsing for announce parameters: decimal counters and ports,
//! and IPv4/IPv6 addresses in their usual written forms.

use vstd::prelude::*;
use vstd::std_specs::iter::IteratorSpec;

use crate::net::Ip;
use crate::net::Ipv4;
use crate::net::Ipv6;
use crate::net::SockV4;
use crate::net::SockV6;

verus! {

/// The characters of a string, in order, as a vector.
pub fn chars_of(s: &str) -> (r: Vec<char>)
    ensures
        r@ == s@,
{
    let mut v: Vec<char> = Vec::new();
    let mut it = s.chars();
    loop
        invariant_except_break
            v@ + it.remaining() =~= s@,
            it.decrease() is Some,
        ensures
            v@ == s@,
        decreases it.decrease()->0,
    {
        match it.next() {
            Some(c) => {
                v.push(c);
            },
            None => {
                proof {
                    assert(it.remaining().len() == 0);
                    assert(v@ =~= s@);
                }
                break ;
            },
        }
    }
    v
}

/// Whether a character is a decimal digit.
pub open spec fn is_digit(c: char) -> bool {
    48 <= c as u32 <= 57
}

/// A decimal digit's value.
pub open spec fn digit_val(c: char) -> int {
    c as u32 - 48
}

/// Whether every character of a string is a decimal digit.
pub open spec fn all_digits(s: Seq<char>) -> bool {
    forall|i: int| 0 <= i < s.len() ==> is_digit(#[trigger] s[i])
}

/// The number a digit string writes.
pub open spec fn dec_val(s: Seq<char>) -> int
    decreases s.len(),
{
    if s.len() == 0 {
        0
    } else {
        dec_val(s.drop_last()) * 10 + digit_val(s.last())
    }
}

/// What a string means as an unsigned decimal: one or more digits
/// writing a value that fits 64 bits.
pub open spec fn spec_parse_digits(s: Seq<char>) -> Option<u64> {
    if s.len() > 0 && all_digits(s) && dec_val(s) <= u64::MAX {
        Some(dec_val(s) as u64)
    } else {
        None
    }
}

/// What a string means as an unsigned 64-bit decimal: digits, with
/// one optional leading plus sign.
pub open spec fn spec_parse_u64(s: Seq<char>) -> Option<u64> {
    if s.len() > 0 && s[0] == '+' {
        spec_parse_digits(s.drop_first())
    } else {
        spec_parse_digits(s)
    }
}

/// A digit string's value is never negative.
pub proof fn lemma_dec_nonneg(s: Seq<char>)
    requires
        all_digits(s),
    ensures
        dec_val(s) >= 0,
    decreases s.len(),
{
    if s.len() > 0 {
        lemma_dec_nonneg(s.drop_last());
    }
}

/// Extending a digit string never shrinks its value.
pub proof fn lemma_dec_monotone(s: Seq<char>, k: int)
    requires
        all_digits(s),
        0 <= k <= s.len(),
    ensures
        dec_val(s) >= dec_val(s.take(k)),
        dec_val(s.take(k)) >= 0,
    decreases s.len() - k,
{
    assert(all_digits(s.take(k)));
    lemma_dec_nonneg(s.take(k));
    if k < s.len() {
        lemma_dec_monotone(s, k + 1);
        assert(s.take(k + 1).drop_last() =~= s.take(k));
        assert(dec_val(s.take(k + 1)) == dec_val(s.take(k)) * 10 + digit_val(s[k]));
    } else {
        assert(s.take(k) =~= s);
    }
}

/// A digit's value, if the character is one.
fn digit_of(c: char) -> (r: Option<u8>)
    ensures
        r is Some <==> is_digit(c),
        r is Some ==> r->0 == digit_val(c),
{
    let u = c as u32;
    if 48 <= u && u <= 57 {
        Some((u - 48) as u8)
    } else {
        None
    }
}

/// Reads the digit string written between two positions, exactly as
/// [`spec_parse_digits`] defines it.
fn parse_digits(v: &Vec<char>, lo: usize, hi: usize) -> (r: Option<u64>)
    requires
        lo <= hi <= v@.len(),
    ensures
        r == spec_parse_digits(v@.subrange(lo as int, hi as int)),
{
    let ghost s = v@.subrange(lo as int, hi as int);
    if lo == hi {
        return None;
    }
    let mut acc: u64 = 0;
    let mut i = lo;
    while i < hi
        invariant
            lo <= i <= hi <= v@.len(),
            s == v@.subrange(lo as int, hi as int),
            all_digits(s.take(i - lo)),
            acc == dec_val(s.take(i - lo)),
        decreases hi - i,
    {
        proof {
            assert(s[i - lo] == v@[i as int]);
            assert(s.take(i - lo + 1).drop_last() =~= s.take(i - lo));
        }
        match digit_of(v[i]) {
            Some(d) => {
                let dd = d as u64;
                if acc > (u64::MAX - dd) / 10 {
                    proof {
                        assert(acc * 10 + dd > u64::MAX);
                        assert(dec_val(s.take(i - lo + 1)) > u64::MAX);
                        if all_digits(s) {
                            lemma_dec_monotone(s, i - lo + 1);
                        }
                    }
                    return None;
                }
                proof {
                    assert(acc * 10 + dd <= u64::MAX);
                }
                acc = acc * 10 + dd;
            },
            None => {
                proof {
                    assert(!is_digit(s[i - lo]));
                }
                return None;
            },
        }
        i += 1;
    }
    proof {
        assert(s.take(hi - lo) =~= s);
    }
    Some(acc)
}

/// Reads an unsigned 64-bit decimal, with one optional leading plus
/// sign, as [`spec_parse_u64`] defines it.
pub fn parse_u64(v: &Vec<char>, lo: usize, hi: usize) -> (r: Option<u64>)
    requires
        lo <= hi <= v@.len(),
    ensures
        r == spec_parse_u64(v@.subrange(lo as int, hi as int)),
{
    let ghost s = v@.subrange(lo as int, hi as int);
    if lo < hi && v[lo] == '+' {
        proof {
            assert(s.drop_first() =~= v@.subrange(lo + 1, hi as int));
        }
        parse_digits(v, lo + 1, hi)
    } else {
        parse_digits(v, lo, hi)
    }
}

/// What a string means as the `port` parameter: an unsigned decimal,
/// optional plus sign included, of at most 65535.
pub open spec fn spec_parse_port(s: Seq<char>) -> Option<u16> {
    match spec_parse_u64(s) {
        Some(x) => if x <= 65535 {
            Some(x as u16)
        } else {
            None
        },
        None => None,
    }
}

/// Reads the `port` parameter.
pub fn parse_port(v: &Vec<char>, lo: usize, hi: usize) -> (r: Option<u16>)
    requires
        lo <= hi <= v@.len(),
    ensures
        r == spec_parse_port(v@.subrange(lo as int, hi as int)),
{
    match parse_u64(v, lo, hi) {
        Some(x) => {
            if x <= 65535 {
                Some(x as u16)
            } else {
                None
            }
        },
        None => None,
    }
}

/// What a string means as the port of a written endpoint: digits
/// alone, as the socket grammar has no sign.
pub open spec fn spec_sock_port(s: Seq<char>) -> Option<u16> {
    if s.len() > 0 && all_digits(s) && dec_val(s) <= 65535 {
        Some(dec_val(s) as u16)
    } else {
        None
    }
}

/// Reads an endpoint's port.
fn parse_sock_port(v: &Vec<char>, lo: usize, hi: usize) -> (r: Option<u16>)
    requires
        lo <= hi <= v@.len(),
    ensures
        r == spec_sock_port(v@.subrange(lo as int, hi as int)),
{
    let ghost s = v@.subrange(lo as int, hi as int);
    match parse_digits(v, lo, hi) {
        Some(x) => {
            proof {
                lemma_dec_nonneg(s);
            }
            if x <= 65535 {
                Some(x as u16)
            } else {
                None
            }
        },
        None => {
            proof {
                if s.len() > 0 && all_digits(s) && dec_val(s) <= 65535 {
                    assert(dec_val(s) <= u64::MAX);
                    assert(spec_parse_digits(s) is Some);
                }
            }
            None
        },
    }
}

/// The first position of a character in a string, or -1.
pub open spec fn find0(s: Seq<char>, c: char) -> int
    decreases s.len(),
{
    if s.len() == 0 {
        -1
    } else if s[0] == c {
        0
    } else if find0(s.drop_first(), c) < 0 {
        -1
    } else {
        find0(s.drop_first(), c) + 1
    }
}

/// `find0` names the first occurrence, and -1 means there is none.
pub proof fn lemma_find0(s: Seq<char>, c: char)
    ensures
        find0(s, c) >= 0 ==> find0(s, c) < s.len() && s[find0(s, c)] == c && (forall|p: int|
            0 <= p < find0(s, c) ==> s[p] != c),
        find0(s, c) < 0 ==> forall|p: int| 0 <= p < s.len() ==> s[p] != c,
    decreases s.len(),
{
    if s.len() > 0 && s[0] != c {
        lemma_find0(s.drop_first(), c);
        let f = find0(s, c);
        if f >= 0 {
            assert(s[f] == s.drop_first()[f - 1]);
            assert forall|p: int| 0 <= p < f implies s[p] != c by {
                if p > 0 {
                    assert(s.drop_first()[p - 1] != c);
                }
            };
        } else {
            assert forall|p: int| 0 <= p < s.len() implies s[p] != c by {
                if p > 0 {
                    assert(s.drop_first()[p - 1] != c);
                }
            };
        }
    }
}

/// `find0` of the first occurrence seen from outside.
pub proof fn lemma_find0_at(s: Seq<char>, c: char, m: int)
    requires
        0 <= m < s.len(),
        s[m] == c,
        forall|p: int| 0 <= p < m ==> s[p] != c,
    ensures
        find0(s, c) == m,
    decreases s.len(),
{
    if m > 0 {
        lemma_find0_at(s.drop_first(), c, m - 1);
    }
}

/// Finds the first occurrence of a character between two positions.
fn find_char(v: &Vec<char>, lo: usize, hi: usize, c: char) -> (r: Option<usize>)
    requires
        lo <= hi <= v@.len(),
    ensures
        ({
            let s = v@.subrange(lo as int, hi as int);
            match r {
                Some(m) => lo <= m < hi && find0(s, c) == m - lo,
                None => find0(s, c) < 0,
            }
        }),
{
    let ghost s = v@.subrange(lo as int, hi as int);
    let mut i = lo;
    while i < hi
        invariant
            lo <= i <= hi <= v@.len(),
            s == v@.subrange(lo as int, hi as int),
            forall|p: int| 0 <= p < i - lo ==> s[p] != c,
        decreases hi - i,
    {
        if v[i] == c {
            proof {
                lemma_find0_at(s, c, i - lo);
            }
            return Some(i);
        }
        i += 1;
    }
    proof {
        lemma_find0(s, c);
        if find0(s, c) >= 0 {
            assert(s[find0(s, c)] == c);
        }
    }
    None
}

/// Whether a character is a hexadecimal digit.
pub open spec fn is_hex(c: char) -> bool {
    48 <= c as u32 <= 57 || 97 <= c as u32 <= 102 || 65 <= c as u32 <= 70
}

/// A hexadecimal digit's value.
pub open spec fn hex_val(c: char) -> int {
    if 48 <= c as u32 <= 57 {
        c as u32 - 48
    } else if 97 <= c as u32 <= 102 {
        c as u32 - 87
    } else {
        c as u32 - 55
    }
}

/// Whether every character of a string is a hexadecimal digit.
pub open spec fn all_hex(s: Seq<char>) -> bool {
    forall|i: int| 0 <= i < s.len() ==> is_hex(#[trigger] s[i])
}

/// The number a hexadecimal string writes.
pub open spec fn hex_val_seq(s: Seq<char>) -> int
    decreases s.len(),
{
    if s.len() == 0 {
        0
    } else {
        hex_val_seq(s.drop_last()) * 16 + hex_val(s.last())
    }
}

/// Sixteen to a small power.
pub open spec fn pow16(n: nat) -> int
    decreases n,
{
    if n == 0 {
        1
    } else {
        16 * pow16((n - 1) as nat)
    }
}

/// The small powers of sixteen the group bound needs.
pub proof fn lemma_pow16_vals()
    ensures
        pow16(0) == 1,
        pow16(1) == 16,
        pow16(2) == 256,
        pow16(3) == 4096,
        pow16(4) == 65536,
{
    assert(pow16(0) == 1);
    assert(pow16(1) == 16);
    assert(pow16(2) == 256);
    assert(pow16(3) == 4096);
    assert(pow16(4) == 65536);
}

/// What a string means as one address group: one to four hexadecimal
/// digits.
pub open spec fn spec_hex16(s: Seq<char>) -> Option<u16> {
    if 1 <= s.len() <= 4 && all_hex(s) {
        Some(hex_val_seq(s) as u16)
    } else {
        None
    }
}

/// A hexadecimal digit's value, if the character is one.
fn hex_digit_of(c: char) -> (r: Option<u8>)
    ensures
        r is Some <==> is_hex(c),
        r is Some ==> r->0 == hex_val(c),
{
    let u = c as u32;
    if 48 <= u && u <= 57 {
        Some((u - 48) as u8)
    } else if 97 <= u && u <= 102 {
        Some((u - 87) as u8)
    } else if 65 <= u && u <= 70 {
        Some((u - 55) as u8)
    } else {
        None
    }
}

/// Reads one address group of one to four hexadecimal digits.
fn parse_hex16(v: &Vec<char>, lo: usize, hi: usize) -> (r: Option<u16>)
    requires
        lo <= hi <= v@.len(),
    ensures
        r == spec_hex16(v@.subrange(lo as int, hi as int)),
{
    let ghost s = v@.subrange(lo as int, hi as int);
    let n = hi - lo;
    if n == 0 || n > 4 {
        return None;
    }
    let mut acc: u32 = 0;
    let mut i = lo;
    while i < hi
        invariant
            lo <= i <= hi <= v@.len(),
            hi - lo <= 4,
            s == v@.subrange(lo as int, hi as int),
            all_hex(s.take(i - lo)),
            acc == hex_val_seq(s.take(i - lo)),
            acc < pow16((i - lo) as nat),
        decreases hi - i,
    {
        proof {
            assert(s[i - lo] == v@[i as int]);
            assert(s.take(i - lo + 1).drop_last() =~= s.take(i - lo));
            lemma_pow16_vals();
            assert(pow16((i - lo) as nat) <= 4096);
        }
        match hex_digit_of(v[i]) {
            Some(d) => {
                acc = acc * 16 + d as u32;
            },
            None => {
                proof {
                    assert(!is_hex(s[i - lo]));
                }
                return None;
            },
        }
        i += 1;
    }
    proof {
        assert(s.take(hi - lo) =~= s);
        lemma_pow16_vals();
        assert(pow16((hi - lo) as nat) <= 65536);
        assert(acc < 65536);
    }
    Some(acc as u16)
}

/// What a string means as one dotted-quad octet: one to three digits,
/// no leading zero, at most 255.
pub open spec fn spec_octet(s: Seq<char>) -> Option<u8> {
    if 1 <= s.len() <= 3 && all_digits(s) && (s.len() == 1 || s[0] != '0') && dec_val(s) <= 255 {
        Some(dec_val(s) as u8)
    } else {
        None
    }
}

/// Reads one dotted-quad octet.
fn parse_octet(v: &Vec<char>, lo: usize, hi: usize) -> (r: Option<u8>)
    requires
        lo <= hi <= v@.len(),
    ensures
        r == spec_octet(v@.subrange(lo as int, hi as int)),
{
    let ghost s = v@.subrange(lo as int, hi as int);
    let n = hi - lo;
    if n == 0 || n > 3 {
        return None;
    }
    if n > 1 && v[lo] == '0' {
        return None;
    }
    match parse_digits(v, lo, hi) {
        Some(x) => {
            proof {
                lemma_dec_nonneg(s);
            }
            if x <= 255 {
                Some(x as u8)
            } else {
                None
            }
        },
        None => {
            proof {
                if s.len() > 0 && all_digits(s) && dec_val(s) <= 255 {
                    assert(dec_val(s) <= u64::MAX);
                    assert(spec_parse_digits(s) is Some);
                }
            }
            None
        },
    }
}

/// What a string means as a dotted-quad IPv4 address.
pub open spec fn spec_parse_ipv4(s: Seq<char>) -> Option<Ipv4> {
    let i = find0(s, '.');
    if i < 0 {
        None
    } else {
        let s2 = s.skip(i + 1);
        let j = find0(s2, '.');
        if j < 0 {
            None
        } else {
            let s3 = s2.skip(j + 1);
            let k = find0(s3, '.');
            if k < 0 {
                None
            } else {
                let s4 = s3.skip(k + 1);
                if find0(s4, '.') >= 0 {
                    None
                } else {
                    match (
                        spec_octet(s.take(i)),
                        spec_octet(s2.take(j)),
                        spec_octet(s3.take(k)),
                        spec_octet(s4),
                    ) {
                        (Some(a), Some(b), Some(c), Some(d)) => Some(Ipv4 { a, b, c, d }),
                        _ => None,
                    }
                }
            }
        }
    }
}

/// Reads a dotted-quad IPv4 address.
pub fn parse_ipv4(v: &Vec<char>, lo: usize, hi: usize) -> (r: Option<Ipv4>)
    requires
        lo <= hi <= v@.len(),
    ensures
        r == spec_parse_ipv4(v@.subrange(lo as int, hi as int)),
{
    let ghost s = v@.subrange(lo as int, hi as int);
    let i = match find_char(v, lo, hi, '.') {
        Some(i) => i,
        None => {
            return None;
        },
    };
    proof {
        assert(s.skip(i - lo + 1) =~= v@.subrange(i + 1, hi as int));
    }
    let j = match find_char(v, i + 1, hi, '.') {
        Some(j) => j,
        None => {
            return None;
        },
    };
    proof {
        assert(s.skip(i - lo + 1).skip(j - i) =~= v@.subrange(j + 1, hi as int));
    }
    let k = match find_char(v, j + 1, hi, '.') {
        Some(k) => k,
        None => {
            return None;
        },
    };
    proof {
        assert(s.skip(i - lo + 1).skip(j - i).skip(k - j) =~= v@.subrange(k + 1, hi as int));
    }
    if let Some(_) = find_char(v, k + 1, hi, '.') {
        return None;
    }
    let a = parse_octet(v, lo, i);
    let b = parse_octet(v, i + 1, j);
    let c = parse_octet(v, j + 1, k);
    let d = parse_octet(v, k + 1, hi);
    proof {
        assert(s.take(i - lo) =~= v@.subrange(lo as int, i as int));
        assert(s.skip(i - lo + 1).take(j - i - 1) =~= v@.subrange(i + 1, j as int));
        assert(s.skip(i - lo + 1).skip(j - i).take(k - j - 1) =~= v@.subrange(j + 1, k as int));
    }
    match (a, b, c, d) {
        (Some(a), Some(b), Some(c), Some(d)) => Some(Ipv4 { a, b, c, d }),
        _ => None,
    }
}


/// The first position where `"::"` begins, or -1.
pub open spec fn find2(s: Seq<char>) -> int
    decreases s.len(),
{
    if s.len() < 2 {
        -1
    } else if s[0] == ':' && s[1] == ':' {
        0
    } else if find2(s.drop_first()) < 0 {
        -1
    } else {
        find2(s.drop_first()) + 1
    }
}

/// `find2` names the first double colon, and -1 means there is none.
pub proof fn lemma_find2(s: Seq<char>)
    ensures
        find2(s) >= 0 ==> find2(s) + 1 < s.len() && s[find2(s)] == ':' && s[find2(s) + 1] == ':'
            && (forall|p: int| 0 <= p < find2(s) ==> !(#[trigger] s[p] == ':' && s[p + 1] == ':')),
        find2(s) < 0 ==> forall|p: int| 0 <= p < s.len() - 1 ==> !(#[trigger] s[p] == ':' && s[p + 1] == ':'),
    decreases s.len(),
{
    if s.len() >= 2 && !(s[0] == ':' && s[1] == ':') {
        lemma_find2(s.drop_first());
        let f = find2(s);
        if f >= 0 {
            assert(s[f] == s.drop_first()[f - 1]);
            assert(s[f + 1] == s.drop_first()[f]);
            assert forall|p: int| 0 <= p < f implies !(#[trigger] s[p] == ':' && s[p + 1] == ':') by {
                if p > 0 {
                    assert(!(s.drop_first()[p - 1] == ':' && s.drop_first()[p] == ':'));
                }
            };
        } else {
            assert forall|p: int| 0 <= p < s.len() - 1 implies !(#[trigger] s[p] == ':' && s[p + 1]
                == ':') by {
                if p > 0 {
                    assert(!(s.drop_first()[p - 1] == ':' && s.drop_first()[p] == ':'));
                }
            };
        }
    }
}

/// `find2` of the first double colon seen from outside.
pub proof fn lemma_find2_at(s: Seq<char>, m: int)
    requires
        0 <= m,
        m + 1 < s.len(),
        s[m] == ':',
        s[m + 1] == ':',
        forall|p: int| 0 <= p < m ==> !(#[trigger] s[p] == ':' && s[p + 1] == ':'),
    ensures
        find2(s) == m,
    decreases s.len(),
{
    if m > 0 {
        assert forall|p: int| 0 <= p < m - 1 implies !(#[trigger] s.drop_first()[p] == ':'
            && s.drop_first()[p + 1] == ':') by {
            assert(!(s[p + 1] == ':' && s[p + 2] == ':'));
        };
        lemma_find2_at(s.drop_first(), m - 1);
    }
}

/// Finds the first double colon between two positions.
fn find_dcolon(v: &Vec<char>, lo: usize, hi: usize) -> (r: Option<usize>)
    requires
        lo <= hi <= v@.len(),
    ensures
        ({
            let s = v@.subrange(lo as int, hi as int);
            match r {
                Some(m) => lo <= m && m + 1 < hi && find2(s) == m - lo,
                None => find2(s) < 0,
            }
        }),
{
    let ghost s = v@.subrange(lo as int, hi as int);
    if hi - lo < 2 {
        proof {
            lemma_find2(s);
        }
        return None;
    }
    let mut i = lo;
    while i < hi - 1
        invariant
            lo <= i <= hi <= v@.len(),
            hi >= 2,
            s == v@.subrange(lo as int, hi as int),
            forall|p: int| 0 <= p < i - lo ==> !(#[trigger] s[p] == ':' && s[p + 1] == ':'),
        decreases hi - i,
    {
        if v[i] == ':' && v[i + 1] == ':' {
            proof {
                lemma_find2_at(s, i - lo);
            }
            return Some(i);
        }
        i += 1;
    }
    proof {
        lemma_find2(s);
        if find2(s) >= 0 {
            assert(s[find2(s)] == ':' && s[find2(s) + 1] == ':');
        }
    }
    None
}

/// What a string means as a non-empty, colon-separated list of
/// hexadecimal address groups.
pub open spec fn spec_groups(s: Seq<char>) -> Option<Seq<u16>>
    decreases s.len(),
    via spec_groups_dec
{
    let i = find0(s, ':');
    if i < 0 {
        match spec_hex16(s) {
            Some(g) => Some(seq![g]),
            None => None,
        }
    } else {
        match spec_hex16(s.take(i)) {
            Some(g) => match spec_groups(s.skip(i + 1)) {
                Some(gs) => Some(seq![g] + gs),
                None => None,
            },
            None => None,
        }
    }
}

#[via_fn]
proof fn spec_groups_dec(s: Seq<char>) {
    lemma_find0(s, ':');
}

/// Two address groups carrying a dotted quad's four octets.
pub open spec fn v4_words(ip: Ipv4) -> Seq<u16> {
    seq![(ip.a as u16 * 256 + ip.b as u16) as u16, (ip.c as u16 * 256 + ip.d as u16) as u16]
}

/// Like [`spec_groups`], except that the last group may instead be an
/// embedded dotted quad, which counts as two groups.
pub open spec fn spec_groups_tail(s: Seq<char>) -> Option<Seq<u16>>
    decreases s.len(),
    via spec_groups_tail_dec
{
    let i = find0(s, ':');
    if i < 0 {
        if find0(s, '.') >= 0 {
            match spec_parse_ipv4(s) {
                Some(ip) => Some(v4_words(ip)),
                None => None,
            }
        } else {
            match spec_hex16(s) {
                Some(g) => Some(seq![g]),
                None => None,
            }
        }
    } else {
        match spec_hex16(s.take(i)) {
            Some(g) => match spec_groups_tail(s.skip(i + 1)) {
                Some(gs) => Some(seq![g] + gs),
                None => None,
            },
            None => None,
        }
    }
}

#[via_fn]
proof fn spec_groups_tail_dec(s: Seq<char>) {
    lemma_find0(s, ':');
}

/// The address eight groups spell.
pub open spec fn ipv6_from_words(gs: Seq<u16>) -> Ipv6 {
    Ipv6 {
        s0: gs[0],
        s1: gs[1],
        s2: gs[2],
        s3: gs[3],
        s4: gs[4],
        s5: gs[5],
        s6: gs[6],
        s7: gs[7],
    }
}

/// What a string means as an IPv6 address: eight groups, or fewer on
/// each side of one `"::"` that stands for the missing zero groups.
pub open spec fn spec_parse_ipv6(s: Seq<char>) -> Option<Ipv6> {
    let i = find2(s);
    if i < 0 {
        match spec_groups_tail(s) {
            Some(gs) => if gs.len() == 8 {
                Some(ipv6_from_words(gs))
            } else {
                None
            },
            None => None,
        }
    } else {
        let left = s.take(i);
        let right = s.skip(i + 2);
        let lg = if left.len() == 0 {
            Some(Seq::<u16>::empty())
        } else {
            spec_groups(left)
        };
        let rg = if right.len() == 0 {
            Some(Seq::<u16>::empty())
        } else {
            spec_groups_tail(right)
        };
        match (lg, rg) {
            (Some(l), Some(r)) => if l.len() + r.len() <= 7 {
                Some(
                    ipv6_from_words(
                        l + Seq::new((8 - l.len() - r.len()) as nat, |_j: int| 0u16) + r,
                    ),
                )
            } else {
                None
            },
            _ => None,
        }
    }
}

/// Reads a colon-separated group list.
fn parse_groups(v: &Vec<char>, lo: usize, hi: usize) -> (r: Option<Vec<u16>>)
    requires
        lo <= hi <= v@.len(),
    ensures
        ({
            let s = v@.subrange(lo as int, hi as int);
            match r {
                Some(g) => spec_groups(s) == Some(g@),
                None => spec_groups(s) is None,
            }
        }),
    decreases hi - lo,
{
    let ghost s = v@.subrange(lo as int, hi as int);
    match find_char(v, lo, hi, ':') {
        None => {
            match parse_hex16(v, lo, hi) {
                Some(g) => {
                    let mut out: Vec<u16> = Vec::new();
                    out.push(g);
                    proof {
                        assert(out@ =~= seq![g]);
                    }
                    Some(out)
                },
                None => None,
            }
        },
        Some(m) => {
            proof {
                assert(s.take(m - lo) =~= v@.subrange(lo as int, m as int));
                assert(s.skip(m - lo + 1) =~= v@.subrange(m + 1, hi as int));
            }
            match parse_hex16(v, lo, m) {
                Some(g) => {
                    match parse_groups(v, m + 1, hi) {
                        Some(gs) => {
                            let mut out: Vec<u16> = Vec::new();
                            out.push(g);
                            let mut rest = gs;
                            out.append(&mut rest);
                            proof {
                                assert(out@ =~= seq![g] + spec_groups(
                                    s.skip(m - lo + 1),
                                )->Some_0);
                            }
                            Some(out)
                        },
                        None => None,
                    }
                },
                None => None,
            }
        },
    }
}

/// Reads a group list whose last group may be an embedded dotted quad.
fn parse_groups_tail(v: &Vec<char>, lo: usize, hi: usize) -> (r: Option<Vec<u16>>)
    requires
        lo <= hi <= v@.len(),
    ensures
        ({
            let s = v@.subrange(lo as int, hi as int);
            match r {
                Some(g) => spec_groups_tail(s) == Some(g@),
                None => spec_groups_tail(s) is None,
            }
        }),
    decreases hi - lo,
{
    let ghost s = v@.subrange(lo as int, hi as int);
    match find_char(v, lo, hi, ':') {
        None => {
            match find_char(v, lo, hi, '.') {
                Some(_) => {
                    match parse_ipv4(v, lo, hi) {
                        Some(ip) => {
                            let mut out: Vec<u16> = Vec::new();
                            out.push(ip.a as u16 * 256 + ip.b as u16);
                            out.push(ip.c as u16 * 256 + ip.d as u16);
                            proof {
                                assert(out@ =~= v4_words(ip));
                            }
                            Some(out)
                        },
                        None => None,
                    }
                },
                None => {
                    match parse_hex16(v, lo, hi) {
                        Some(g) => {
                            let mut out: Vec<u16> = Vec::new();
                            out.push(g);
                            proof {
                                assert(out@ =~= seq![g]);
                            }
                            Some(out)
                        },
                        None => None,
                    }
                },
            }
        },
        Some(m) => {
            proof {
                assert(s.take(m - lo) =~= v@.subrange(lo as int, m as int));
                assert(s.skip(m - lo + 1) =~= v@.subrange(m + 1, hi as int));
            }
            match parse_hex16(v, lo, m) {
                Some(g) => {
                    match parse_groups_tail(v, m + 1, hi) {
                        Some(gs) => {
                            let mut out: Vec<u16> = Vec::new();
                            out.push(g);
                            let mut rest = gs;
                            out.append(&mut rest);
                            proof {
                                assert(out@ =~= seq![g] + spec_groups_tail(
                                    s.skip(m - lo + 1),
                                )->Some_0);
                            }
                            Some(out)
                        },
                        None => None,
                    }
                },
                None => None,
            }
        },
    }
}

/// Reads an IPv6 address.
pub fn parse_ipv6(v: &Vec<char>, lo: usize, hi: usize) -> (r: Option<Ipv6>)
    requires
        lo <= hi <= v@.len(),
    ensures
        r == spec_parse_ipv6(v@.subrange(lo as int, hi as int)),
{
    let ghost s = v@.subrange(lo as int, hi as int);
    match find_dcolon(v, lo, hi) {
        None => {
            match parse_groups_tail(v, lo, hi) {
                Some(gs) => {
                    if gs.len() == 8 {
                        Some(
                            Ipv6 {
                                s0: gs[0],
                                s1: gs[1],
                                s2: gs[2],
                                s3: gs[3],
                                s4: gs[4],
                                s5: gs[5],
                                s6: gs[6],
                                s7: gs[7],
                            },
                        )
                    } else {
                        None
                    }
                },
                None => None,
            }
        },
        Some(m) => {
            proof {
                assert(s.take(m - lo) =~= v@.subrange(lo as int, m as int));
                assert(s.skip(m - lo + 2) =~= v@.subrange(m + 2, hi as int));
            }
            let left = if m == lo {
                Some(Vec::<u16>::new())
            } else {
                parse_groups(v, lo, m)
            };
            let right = if m + 2 == hi {
                Some(Vec::<u16>::new())
            } else {
                parse_groups_tail(v, m + 2, hi)
            };
            match (left, right) {
                (Some(l), Some(rg)) => {
                    if l.len() <= 7 && rg.len() <= 7 - l.len() {
                        let zeros = 8 - l.len() - rg.len();
                        let mut words = l;
                        let mut k: usize = 0;
                        while k < zeros
                            invariant
                                k <= zeros,
                                words@ =~= l@ + Seq::new(k as nat, |_j: int| 0u16),
                            decreases zeros - k,
                        {
                            words.push(0);
                            k += 1;
                        }
                        let mut rest = rg;
                        words.append(&mut rest);
                        proof {
                            assert(words@ =~= l@ + Seq::new(
                                (8 - l@.len() - rg@.len()) as nat,
                                |_j: int| 0u16,
                            ) + rg@);
                            assert(words@.len() == 8);
                        }
                        Some(
                            Ipv6 {
                                s0: words[0],
                                s1: words[1],
                                s2: words[2],
                                s3: words[3],
                                s4: words[4],
                                s5: words[5],
                                s6: words[6],
                                s7: words[7],
                            },
                        )
                    } else {
                        None
                    }
                },
                _ => None,
            }
        },
    }
}

/// What a string means as an IP address of either family.
pub open spec fn spec_parse_ip(s: Seq<char>) -> Option<Ip> {
    match spec_parse_ipv4(s) {
        Some(ip) => Some(Ip::V4(ip)),
        None => match spec_parse_ipv6(s) {
            Some(ip) => Some(Ip::V6(ip)),
            None => None,
        },
    }
}

/// Reads an IP address of either family.
pub fn parse_ip(v: &Vec<char>, lo: usize, hi: usize) -> (r: Option<Ip>)
    requires
        lo <= hi <= v@.len(),
    ensures
        r == spec_parse_ip(v@.subrange(lo as int, hi as int)),
{
    match parse_ipv4(v, lo, hi) {
        Some(ip) => Some(Ip::V4(ip)),
        None => {
            match parse_ipv6(v, lo, hi) {
                Some(ip) => Some(Ip::V6(ip)),
                None => None,
            }
        },
    }
}

/// What a string means as an IPv4 endpoint: address, colon, port.
pub open spec fn spec_parse_sock_v4(s: Seq<char>) -> Option<SockV4> {
    let i = find0(s, ':');
    if i < 0 {
        None
    } else {
        match (spec_parse_ipv4(s.take(i)), spec_sock_port(s.skip(i + 1))) {
            (Some(ip), Some(port)) => Some(SockV4 { ip, port }),
            _ => None,
        }
    }
}

/// A usable scope id: one or more digits writing a 32-bit value. The
/// id itself is discarded; only the address and port are kept.
pub open spec fn spec_scope_ok(s: Seq<char>) -> bool {
    s.len() > 0 && all_digits(s) && dec_val(s) <= u32::MAX
}

/// What a string means as an IPv6 endpoint: bracketed address with an
/// optional scope id, colon, port.
pub open spec fn spec_parse_sock_v6(s: Seq<char>) -> Option<SockV6> {
    if s.len() < 2 || s[0] != '[' {
        None
    } else {
        let j = find0(s, ']');
        if j < 0 || j + 1 >= s.len() || s[j + 1] != ':' {
            None
        } else {
            let inner = s.subrange(1, j);
            let m = find0(inner, '%');
            let addr = if m < 0 {
                inner
            } else {
                inner.take(m)
            };
            if m >= 0 && !spec_scope_ok(inner.skip(m + 1)) {
                None
            } else {
                match (spec_parse_ipv6(addr), spec_sock_port(s.skip(j + 2))) {
                    (Some(ip), Some(port)) => Some(SockV6 { ip, port }),
                    _ => None,
                }
            }
        }
    }
}

/// What a string means as an endpoint of either family.
pub open spec fn spec_parse_sock(s: Seq<char>) -> Option<crate::net::Remote> {
    match spec_parse_sock_v4(s) {
        Some(x) => Some(crate::net::Remote::V4(x)),
        None => match spec_parse_sock_v6(s) {
            Some(x) => Some(crate::net::Remote::V6(x)),
            None => None,
        },
    }
}

/// Reads an IPv4 endpoint written as address, colon, port.
pub fn parse_sock_v4(v: &Vec<char>, lo: usize, hi: usize) -> (r: Option<SockV4>)
    requires
        lo <= hi <= v@.len(),
    ensures
        r == spec_parse_sock_v4(v@.subrange(lo as int, hi as int)),
{
    let ghost s = v@.subrange(lo as int, hi as int);
    match find_char(v, lo, hi, ':') {
        None => None,
        Some(m) => {
            proof {
                assert(s.take(m - lo) =~= v@.subrange(lo as int, m as int));
                assert(s.skip(m - lo + 1) =~= v@.subrange(m + 1, hi as int));
            }
            match (parse_ipv4(v, lo, m), parse_sock_port(v, m + 1, hi)) {
                (Some(ip), Some(port)) => Some(SockV4 { ip, port }),
                _ => None,
            }
        },
    }
}

/// Reads an IPv6 endpoint written as bracketed address, optional
/// scope id, colon, port.
pub fn parse_sock_v6(v: &Vec<char>, lo: usize, hi: usize) -> (r: Option<SockV6>)
    requires
        lo <= hi <= v@.len(),
    ensures
        r == spec_parse_sock_v6(v@.subrange(lo as int, hi as int)),
{
    let ghost s = v@.subrange(lo as int, hi as int);
    if hi - lo < 2 || v[lo] != '[' {
        return None;
    }
    match find_char(v, lo, hi, ']') {
        None => None,
        Some(j) => {
            if j + 1 >= hi || v[j + 1] != ':' {
                return None;
            }
            proof {
                lemma_find0(s, ']');
                assert(s[j - lo] == ']');
                assert(j > lo);
                assert(s.subrange(1, j - lo) =~= v@.subrange(lo + 1, j as int));
                assert(s.skip(j - lo + 2) =~= v@.subrange(j + 2, hi as int));
            }
            let ghost inner = s.subrange(1, j - lo);
            let addr_hi = match find_char(v, lo + 1, j, '%') {
                None => j,
                Some(m) => {
                    proof {
                        assert(inner.take(m - lo - 1) =~= v@.subrange(lo + 1, m as int));
                        assert(inner.skip(m - lo) =~= v@.subrange(m + 1, j as int));
                    }
                    let ghost scope = inner.skip(m - lo);
                    let scope_good = match parse_digits(v, m + 1, j) {
                        Some(x) => x <= u32::MAX as u64,
                        None => false,
                    };
                    proof {
                        if spec_parse_digits(scope) is Some {
                            lemma_dec_nonneg(scope);
                        } else if spec_scope_ok(scope) {
                            assert(dec_val(scope) <= u64::MAX);
                            assert(spec_parse_digits(scope) is Some);
                        }
                        assert(scope_good == spec_scope_ok(scope));
                    }
                    if !scope_good {
                        return None;
                    }
                    m
                },
            };
            match (parse_ipv6(v, lo + 1, addr_hi), parse_sock_port(v, j + 2, hi)) {
                (Some(ip), Some(port)) => Some(SockV6 { ip, port }),
                _ => None,
            }
        },
    }
}

/// Reads an endpoint of either family.
pub fn parse_sock(v: &Vec<char>, lo: usize, hi: usize) -> (r: Option<crate::net::Remote>)
    requires
        lo <= hi <= v@.len(),
    ensures
        r == spec_parse_sock(v@.subrange(lo as int, hi as int)),
{
    match parse_sock_v4(v, lo, hi) {
        Some(x) => Some(crate::net::Remote::V4(x)),
        None => {
            match parse_sock_v6(v, lo, hi) {
                Some(x) => Some(crate::net::Remote::V6(x)),
                None => None,
            }
        },
    }
}


/// Finds the first occurrence of a character between two positions.
pub fn find_char_pub(v: &Vec<char>, lo: usize, hi: usize, c: char) -> (r: Option<usize>)
    requires
        lo <= hi <= v@.len(),
    ensures
        ({
            let s = v@.subrange(lo as int, hi as int);
            match r {
                Some(m) => lo <= m < hi && find0(s, c) == m - lo,
                None => find0(s, c) < 0,
            }
        }),
{
    find_char(v, lo, hi, c)
}

} // verus!
