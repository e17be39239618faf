//! Internet addresses, as plain bytes.

use vstd::prelude::*;

verus! {

/// An IP address.
#[derive(Debug, Clone, Copy, PartialEq, Eq)]
pub enum IpAddr {
    /// An IPv4 address, most significant octet first.
    V4([u8; 4]),
    /// An IPv6 address, most significant octet first.
    V6([u8; 16]),
}

/// An IP address and a port.
#[derive(Debug, Clone, Copy, PartialEq, Eq)]
pub struct SocketAddr {
    /// The address.
    pub ip: IpAddr,
    /// The port.
    pub port: u16,
    /// The flow information of an IPv6 address, else zero.
    pub flowinfo: u32,
    /// The scope of an IPv6 address, else zero.
    pub scope_id: u32,
}

impl IpAddr {
    /// Whether this is an IPv6 address.
    pub fn is_ipv6(&self) -> (result: bool)
        ensures
            result <==> *self is V6,
    {
        match self {
            IpAddr::V4(_) => false,
            IpAddr::V6(_) => true,
        }
    }
}

/// An IPv4 address as a number.
pub open spec fn v4_number(octets: Seq<u8>) -> nat {
    (octets[0] * 0x100_0000 + octets[1] * 0x1_0000 + octets[2] * 0x100 + octets[3]) as nat
}

/// One of the eight segments of an IPv6 address.
pub open spec fn segment(octets: Seq<u8>, i: int) -> nat {
    (octets[2 * i] * 0x100 + octets[2 * i + 1]) as nat
}

/// Whether the first `count` octets are all zero.
pub open spec fn zeroes(octets: Seq<u8>, count: int) -> bool {
    forall|i: int| 0 <= i < count ==> #[trigger] octets[i] == 0
}

/// Whether the octets from `from` up to `to` are all zero.
pub(crate) fn all_zero(octets: &[u8; 16], from: usize, to: usize) -> (result: bool)
    requires
        from <= to <= 16,
    ensures
        result <==> forall|i: int| from <= i < to ==> #[trigger] octets@[i] == 0,
{
    let mut at: usize = from;
    while at < to
        invariant
            from <= at <= to <= 16,
            forall|i: int| from <= i < at ==> #[trigger] octets@[i] == 0,
        decreases to - at,
    {
        if octets[at] != 0 {
            return false;
        }
        at = at + 1;
    }
    true
}

} // verus!
