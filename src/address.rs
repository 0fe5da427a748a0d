//! Transport endpoints held as plain values.
use vstd::prelude::*;

verus! {

/// A transport endpoint: an IP address with a port.
///
/// An IPv4 address sits in the low 32 bits of `ip`; the flow label and
/// scope id only carry meaning for IPv6 endpoints and are zero otherwise.
/// Two endpoints are the same peer exactly when all fields agree.
#[derive(Clone, Copy, Debug, PartialEq, Eq, Structural, Hash)]
pub struct PeerAddr {
    pub v6: bool,
    pub ip: u128,
    pub port: u16,
    pub flowinfo: u32,
    pub scope_id: u32,
}

impl PeerAddr {
    /// An IPv4 endpoint; `ip` holds the four octets, most significant first.
    pub fn v4(ip: u32, port: u16) -> (r: PeerAddr)
        ensures
            !r.v6,
            r.ip == ip as u128,
            r.port == port,
            r.flowinfo == 0,
            r.scope_id == 0,
    {
        PeerAddr { v6: false, ip: ip as u128, port, flowinfo: 0, scope_id: 0 }
    }

    /// An IPv6 endpoint.
    pub fn v6(ip: u128, port: u16, flowinfo: u32, scope_id: u32) -> (r: PeerAddr)
        ensures
            r.v6,
            r.ip == ip,
            r.port == port,
            r.flowinfo == flowinfo,
            r.scope_id == scope_id,
    {
        PeerAddr { v6: true, ip, port, flowinfo, scope_id }
    }
}

} // verus!
