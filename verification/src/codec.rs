//! Compact peer encoding: an IPv4 endpoint as 6 bytes, an IPv6
//! endpoint as 18 bytes, ports and segments big-endian.

use vstd::prelude::*;

use crate::net::Ipv4;
use crate::net::Ipv6;
use crate::net::SockV4;
use crate::net::SockV6;

verus! {

/// A 16-bit value as its two big-endian bytes.
pub open spec fn be16(i: u16) -> Seq<u8> {
    seq![(i / 256) as u8, (i % 256) as u8]
}

/// The 16-bit value two big-endian bytes stand for.
pub open spec fn u16_of(hi: u8, lo: u8) -> u16 {
    (hi as u16 * 256 + lo as u16) as u16
}

/// The 6-byte compact form of an IPv4 endpoint.
pub open spec fn v4_bytes(s: SockV4) -> Seq<u8> {
    seq![s.ip.a, s.ip.b, s.ip.c, s.ip.d] + be16(s.port)
}

/// The 18-byte compact form of an IPv6 endpoint.
pub open spec fn v6_bytes(s: SockV6) -> Seq<u8> {
    be16(s.ip.s0) + be16(s.ip.s1) + be16(s.ip.s2) + be16(s.ip.s3) + be16(s.ip.s4) + be16(s.ip.s5)
        + be16(s.ip.s6) + be16(s.ip.s7) + be16(s.port)
}

/// The endpoint a 6-byte compact form stands for; anything of another
/// length stands for nothing.
pub open spec fn spec_decode_v4(b: Seq<u8>) -> Option<SockV4> {
    if b.len() == 6 {
        Some(
            SockV4 {
                ip: Ipv4 { a: b[0], b: b[1], c: b[2], d: b[3] },
                port: u16_of(b[4], b[5]),
            },
        )
    } else {
        None
    }
}

/// The endpoint an 18-byte compact form stands for.
pub open spec fn spec_decode_v6(b: Seq<u8>) -> Option<SockV6> {
    if b.len() == 18 {
        Some(
            SockV6 {
                ip: Ipv6 {
                    s0: u16_of(b[0], b[1]),
                    s1: u16_of(b[2], b[3]),
                    s2: u16_of(b[4], b[5]),
                    s3: u16_of(b[6], b[7]),
                    s4: u16_of(b[8], b[9]),
                    s5: u16_of(b[10], b[11]),
                    s6: u16_of(b[12], b[13]),
                    s7: u16_of(b[14], b[15]),
                },
                port: u16_of(b[16], b[17]),
            },
        )
    } else {
        None
    }
}

/// Splits a port (or any 16-bit value) into its two big-endian bytes.
pub fn u16_to_u8(i: u16) -> (r: Vec<u8>)
    ensures
        r@ =~= be16(i),
{
    let mut v: Vec<u8> = Vec::new();
    v.push((i / 256) as u8);
    v.push((i % 256) as u8);
    v
}

/// Encodes one IPv4 endpoint as its 6-byte compact form.
pub fn v4_to_bytes(s: &SockV4) -> (r: Vec<u8>)
    ensures
        r@ =~= v4_bytes(*s),
{
    let mut v: Vec<u8> = Vec::new();
    v.push(s.ip.a);
    v.push(s.ip.b);
    v.push(s.ip.c);
    v.push(s.ip.d);
    v.push((s.port / 256) as u8);
    v.push((s.port % 256) as u8);
    v
}

/// Encodes one IPv6 endpoint as its 18-byte compact form.
pub fn v6_to_bytes(s: &SockV6) -> (r: Vec<u8>)
    ensures
        r@ =~= v6_bytes(*s),
{
    let mut v: Vec<u8> = Vec::new();
    v.push((s.ip.s0 / 256) as u8);
    v.push((s.ip.s0 % 256) as u8);
    v.push((s.ip.s1 / 256) as u8);
    v.push((s.ip.s1 % 256) as u8);
    v.push((s.ip.s2 / 256) as u8);
    v.push((s.ip.s2 % 256) as u8);
    v.push((s.ip.s3 / 256) as u8);
    v.push((s.ip.s3 % 256) as u8);
    v.push((s.ip.s4 / 256) as u8);
    v.push((s.ip.s4 % 256) as u8);
    v.push((s.ip.s5 / 256) as u8);
    v.push((s.ip.s5 % 256) as u8);
    v.push((s.ip.s6 / 256) as u8);
    v.push((s.ip.s6 % 256) as u8);
    v.push((s.ip.s7 / 256) as u8);
    v.push((s.ip.s7 % 256) as u8);
    v.push((s.port / 256) as u8);
    v.push((s.port % 256) as u8);
    v
}

/// Decodes a 6-byte compact form back into an IPv4 endpoint.
pub fn v4_from_bytes(b: &Vec<u8>) -> (r: Option<SockV4>)
    ensures
        r == spec_decode_v4(b@),
{
    if b.len() == 6 {
        Some(
            SockV4 {
                ip: Ipv4 { a: b[0], b: b[1], c: b[2], d: b[3] },
                port: b[4] as u16 * 256 + b[5] as u16,
            },
        )
    } else {
        None
    }
}

/// Decodes an 18-byte compact form back into an IPv6 endpoint.
pub fn v6_from_bytes(b: &Vec<u8>) -> (r: Option<SockV6>)
    ensures
        r == spec_decode_v6(b@),
{
    if b.len() == 18 {
        Some(
            SockV6 {
                ip: Ipv6 {
                    s0: b[0] as u16 * 256 + b[1] as u16,
                    s1: b[2] as u16 * 256 + b[3] as u16,
                    s2: b[4] as u16 * 256 + b[5] as u16,
                    s3: b[6] as u16 * 256 + b[7] as u16,
                    s4: b[8] as u16 * 256 + b[9] as u16,
                    s5: b[10] as u16 * 256 + b[11] as u16,
                    s6: b[12] as u16 * 256 + b[13] as u16,
                    s7: b[14] as u16 * 256 + b[15] as u16,
                },
                port: b[16] as u16 * 256 + b[17] as u16,
            },
        )
    } else {
        None
    }
}

/// Law: decoding the 6-byte compact form of an IPv4 endpoint recovers
/// the endpoint exactly.
pub proof fn lemma_v4_round_trip(s: SockV4)
    ensures
        spec_decode_v4(v4_bytes(s)) == Some(s),
{
    assert(u16_of((s.port / 256) as u8, (s.port % 256) as u8) == s.port);
}

/// Law: decoding the 18-byte compact form of an IPv6 endpoint recovers
/// the endpoint exactly.
pub proof fn lemma_v6_round_trip(s: SockV6)
    ensures
        spec_decode_v6(v6_bytes(s)) == Some(s),
{
    assert(u16_of((s.ip.s0 / 256) as u8, (s.ip.s0 % 256) as u8) == s.ip.s0);
    assert(u16_of((s.ip.s1 / 256) as u8, (s.ip.s1 % 256) as u8) == s.ip.s1);
    assert(u16_of((s.ip.s2 / 256) as u8, (s.ip.s2 % 256) as u8) == s.ip.s2);
    assert(u16_of((s.ip.s3 / 256) as u8, (s.ip.s3 % 256) as u8) == s.ip.s3);
    assert(u16_of((s.ip.s4 / 256) as u8, (s.ip.s4 % 256) as u8) == s.ip.s4);
    assert(u16_of((s.ip.s5 / 256) as u8, (s.ip.s5 % 256) as u8) == s.ip.s5);
    assert(u16_of((s.ip.s6 / 256) as u8, (s.ip.s6 % 256) as u8) == s.ip.s6);
    assert(u16_of((s.ip.s7 / 256) as u8, (s.ip.s7 % 256) as u8) == s.ip.s7);
    assert(u16_of((s.port / 256) as u8, (s.port % 256) as u8) == s.port);
}

} // verus!
