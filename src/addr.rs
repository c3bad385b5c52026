use vstd::prelude::*;

verus! {

/// A socket address: an IPv4 or IPv6 address and a port. Port 0 stands for
/// an address given without one.
#[derive(Copy, Clone, Debug, PartialEq, Eq, Hash)]
pub enum HostAddr {
    V4 { ip: [u8; 4], port: u16 },
    V6 { ip: [u16; 8], port: u16 },
}

/// The IPv4 loopback address.
pub open spec fn loopback() -> Seq<u8> {
    seq![127u8, 0u8, 0u8, 1u8]
}

pub fn loopback_ip() -> (r: [u8; 4])
    ensures
        r@ == loopback(),
{
    let r = [127u8, 0u8, 0u8, 1u8];
    assert(r@ =~= loopback());
    r
}

} // verus!
