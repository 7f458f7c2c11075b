//! Transport addresses as plain values.

use vstd::prelude::*;

verus! {

/// The address a client sends from: an IP address and a port, with the extra
/// fields an IPv6 socket address carries. Two endpoints are the same when all
/// their fields are.
#[derive(Clone, Copy, Debug, PartialEq, Eq, Structural)]
pub enum Endpoint {
    V4 { ip: u32, port: u16 },
    V6 { ip_v6: u128, port: u16, flowinfo: u32, scope_id: u32 },
}

impl Endpoint {
    /// The IPv4 endpoint with the address `a.b.c.d` and the given port.
    pub fn v4(a: u8, b: u8, c: u8, d: u8, port: u16) -> (e: Endpoint)
        ensures
            e == (Endpoint::V4 {
                ip: (a as u32 * 0x100_0000 + b as u32 * 0x1_0000 + c as u32 * 0x100 + d as u32) as u32,
                port,
            }),
    {
        let ip: u32 = a as u32 * 0x100_0000 + b as u32 * 0x1_0000 + c as u32 * 0x100 + d as u32;
        Endpoint::V4 { ip, port }
    }

    /// The port of the endpoint.
    pub fn port(&self) -> (p: u16)
        ensures
            p == match *self {
                Endpoint::V4 { port, .. } => port,
                Endpoint::V6 { port, .. } => port,
            },
    {
        match *self {
            Endpoint::V4 { port, .. } => port,
            Endpoint::V6 { port, .. } => port,
        }
    }
}

} // verus!
