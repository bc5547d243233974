//! Plain endpoint types used throughout the tracker core.
//!
//! Addresses are held as their numeric components so that every rule
//! about them can be stated and proved directly.

use vstd::prelude::*;

verus! {

/// An IPv4 address as its four octets.
#[derive(Clone, Copy, PartialEq, Eq, Structural, Debug)]
pub struct Ipv4 {
    pub a: u8,
    pub b: u8,
    pub c: u8,
    pub d: u8,
}

/// An IPv6 address as its eight 16-bit segments.
#[derive(Clone, Copy, PartialEq, Eq, Structural, Debug)]
pub struct Ipv6 {
    pub s0: u16,
    pub s1: u16,
    pub s2: u16,
    pub s3: u16,
    pub s4: u16,
    pub s5: u16,
    pub s6: u16,
    pub s7: u16,
}

/// An address of either family.
#[derive(Clone, Copy, PartialEq, Eq, Structural, Debug)]
pub enum Ip {
    V4(Ipv4),
    V6(Ipv6),
}

/// An IPv4 endpoint: address and port.
#[derive(Clone, Copy, PartialEq, Eq, Structural, Debug)]
pub struct SockV4 {
    pub ip: Ipv4,
    pub port: u16,
}

/// An IPv6 endpoint: address and port.
#[derive(Clone, Copy, PartialEq, Eq, Structural, Debug)]
pub struct SockV6 {
    pub ip: Ipv6,
    pub port: u16,
}

/// A connection's remote endpoint, of either family.
#[derive(Clone, Copy, PartialEq, Eq, Structural, Debug)]
pub enum Remote {
    V4(SockV4),
    V6(SockV6),
}

} // verus!
