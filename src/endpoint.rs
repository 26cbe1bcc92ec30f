use vstd::prelude::*;

verus! {

/// A network address as the routing logic sees it: an IP address held as an
/// integer (IPv4 addresses in the low 32 bits) and a port.
#[derive(Clone, Copy, Debug, PartialEq, Eq, Hash, Structural)]
pub struct Endpoint {
    pub ip: u128,
    pub port: u16,
    pub v6: bool,
}

impl Endpoint {
    /// An IPv4 endpoint from its four octets and a port.
    pub fn v4(a: u8, b: u8, c: u8, d: u8, port: u16) -> (r: Endpoint)
        ensures
            r.ip == a as int * 0x1000000 + b as int * 0x10000 + c as int * 0x100 + d as int,
            r.port == port,
            !r.v6,
    {
        let ip: u128 = a as u128 * 0x1000000 + b as u128 * 0x10000 + c as u128 * 0x100 + d as u128;
        Endpoint { ip, port, v6: false }
    }
}

} // verus!
