//! Destination policy: which targets this proxy is willing to reach.
//!
//! A proxy that dials anything is a reflector, and sits inside a perimeter that
//! trusts it. So private address space is out of reach unless it is opened, and
//! what is no unicast target at all is out of reach always. Every judgement is
//! made on the address that would actually be reached: an IPv4 address inside
//! an IPv6 one is judged as the IPv4 address.

use vstd::prelude::*;

use crate::config::Security;
use crate::ip::{IpAddr, SocketAddr, all_zero, segment, v4_number, zeroes};

verus! {

/// Whether an IPv4 address lies from `first` to `last`, both given by octets.
pub open spec fn between(octets: Seq<u8>, first: Seq<u8>, last: Seq<u8>) -> bool {
    v4_number(first) <= v4_number(octets) <= v4_number(last)
}

/// IPv4 addresses that are no unicast destination: the unspecified address,
/// multicast and broadcast.
pub open spec fn v4_never(octets: Seq<u8>) -> bool {
    ||| octets == seq![0u8, 0u8, 0u8, 0u8]
    ||| octets == seq![255u8, 255u8, 255u8, 255u8]
    ||| between(octets, seq![224u8, 0u8, 0u8, 0u8], seq![239u8, 255u8, 255u8, 255u8])
}

/// IPv4 addresses of special purpose (RFC 6890): loopback, private use,
/// link-local, shared address space, protocol assignments, benchmarking,
/// documentation, reserved.
pub open spec fn v4_private(octets: Seq<u8>) -> bool {
    ||| between(octets, seq![127u8, 0u8, 0u8, 0u8], seq![127u8, 255u8, 255u8, 255u8])
    ||| between(octets, seq![10u8, 0u8, 0u8, 0u8], seq![10u8, 255u8, 255u8, 255u8])
    ||| between(octets, seq![172u8, 16u8, 0u8, 0u8], seq![172u8, 31u8, 255u8, 255u8])
    ||| between(octets, seq![192u8, 168u8, 0u8, 0u8], seq![192u8, 168u8, 255u8, 255u8])
    ||| between(octets, seq![169u8, 254u8, 0u8, 0u8], seq![169u8, 254u8, 255u8, 255u8])
    ||| between(octets, seq![100u8, 64u8, 0u8, 0u8], seq![100u8, 127u8, 255u8, 255u8])
    ||| between(octets, seq![192u8, 0u8, 0u8, 0u8], seq![192u8, 0u8, 0u8, 255u8])
    ||| between(octets, seq![198u8, 18u8, 0u8, 0u8], seq![198u8, 19u8, 255u8, 255u8])
    ||| between(octets, seq![240u8, 0u8, 0u8, 0u8], seq![255u8, 255u8, 255u8, 255u8])
    ||| v4_documentation(octets)
}

/// The IPv4 documentation ranges (RFC 5737).
pub open spec fn v4_documentation(octets: Seq<u8>) -> bool {
    ||| between(octets, seq![192u8, 0u8, 2u8, 0u8], seq![192u8, 0u8, 2u8, 255u8])
    ||| between(octets, seq![198u8, 51u8, 100u8, 0u8], seq![198u8, 51u8, 100u8, 255u8])
    ||| between(octets, seq![203u8, 0u8, 113u8, 0u8], seq![203u8, 0u8, 113u8, 255u8])
}

/// IPv6 addresses that are no unicast destination: the unspecified address and
/// multicast.
pub open spec fn v6_never(octets: Seq<u8>) -> bool {
    zeroes(octets, 16) || octets[0] == 0xff
}

/// IPv6 addresses of special purpose: loopback and the rest of `::/96`, unique
/// local, link-local, documentation, discard-only.
pub open spec fn v6_private(octets: Seq<u8>) -> bool {
    ||| zeroes(octets, 12)
    ||| 0xfc00 <= segment(octets, 0) <= 0xfdff
    ||| 0xfe80 <= segment(octets, 0) <= 0xfebf
    ||| segment(octets, 0) == 0x2001 && segment(octets, 1) == 0x0db8
    ||| segment(octets, 0) == 0x0100 && segment(octets, 1) == 0 && segment(octets, 2) == 0
        && segment(octets, 3) == 0
}

/// An IP address by its octets.
pub enum Octets {
    /// Four of them.
    V4(Seq<u8>),
    /// Sixteen of them.
    V6(Seq<u8>),
}

/// The octets of an address.
pub open spec fn octets_of(ip: IpAddr) -> Octets {
    match ip {
        IpAddr::V4(octets) => Octets::V4(octets@),
        IpAddr::V6(octets) => Octets::V6(octets@),
    }
}

/// Whether an IPv6 address is `::ffff:a.b.c.d`.
pub open spec fn is_mapped(octets: Seq<u8>) -> bool {
    zeroes(octets, 10) && octets[10] == 0xff && octets[11] == 0xff
}

/// The address the kernel routes: a mapped IPv4 address as the IPv4 address.
pub open spec fn routed(ip: Octets) -> Octets {
    match ip {
        Octets::V6(octets) if is_mapped(octets) => Octets::V4(octets.subrange(12, 16)),
        _ => ip,
    }
}

/// The IPv4 address that a transition address carries: NAT64 with the well-known
/// prefix and with the local-use one, 6to4, and Teredo, whose client address is
/// inverted bit by bit.
pub open spec fn carried(octets: Seq<u8>) -> Option<Seq<u8>> {
    if segment(octets, 0) == 0x64 && segment(octets, 1) == 0xff9b && segment(octets, 2) == 0
        && segment(octets, 3) == 0 && segment(octets, 4) == 0 && segment(octets, 5) == 0 {
        Some(octets.subrange(12, 16))
    } else if segment(octets, 0) == 0x64 && segment(octets, 1) == 0xff9b && segment(octets, 2)
        == 1 {
        Some(seq![octets[6], octets[7], octets[9], octets[10]])
    } else if segment(octets, 0) == 0x2002 {
        Some(octets.subrange(2, 6))
    } else if segment(octets, 0) == 0x2001 && segment(octets, 1) == 0 {
        Some(
            seq![
                (255 - octets[12]) as u8,
                (255 - octets[13]) as u8,
                (255 - octets[14]) as u8,
                (255 - octets[15]) as u8,
            ],
        )
    } else {
        None
    }
}

/// The address a destination is judged as.
pub open spec fn judged_as(ip: Octets) -> Octets {
    match routed(ip) {
        Octets::V6(octets) => match carried(octets) {
            Some(inner) => Octets::V4(inner),
            None => Octets::V6(octets),
        },
        v4 => v4,
    }
}

/// Whether an address is no destination at all.
pub open spec fn never_allowed(ip: Octets) -> bool {
    match ip {
        Octets::V4(octets) => v4_never(octets),
        Octets::V6(octets) => v6_never(octets),
    }
}

/// Whether an address may be reached only where private networks may.
pub open spec fn private(ip: Octets) -> bool {
    match ip {
        Octets::V4(octets) => v4_private(octets),
        Octets::V6(octets) => v6_private(octets),
    }
}

/// Whether an address may be reached.
pub open spec fn reachable(allow_private: bool, ip: Octets) -> bool {
    let judged = judged_as(ip);
    !never_allowed(judged) && (private(judged) ==> allow_private)
}

/// The addresses among these that may be reached, in order.
pub open spec fn dialable(addresses: Seq<SocketAddr>, allow_private: bool) -> Seq<SocketAddr> {
    addresses.filter(
        |address: SocketAddr| reachable(allow_private, octets_of(address.ip)),
    )
}

/// Whether a port may be reached where these are denied.
pub open spec fn port_allowed(denied: Seq<u16>, port: u16) -> bool {
    !denied.contains(port)
}

/// Whether an address is the unspecified one.
pub open spec fn unspecified(ip: Octets) -> bool {
    match ip {
        Octets::V4(octets) => octets == seq![0u8, 0u8, 0u8, 0u8],
        Octets::V6(octets) => zeroes(octets, 16),
    }
}

/// Normalizes an address into the form the kernel routes.
///
/// The deprecated `::a.b.c.d` is left as it is: as an IPv4 address `::1` would
/// lose its loopback meaning.
pub fn canonical(ip: IpAddr) -> (result: IpAddr)
    ensures
        octets_of(result) == routed(octets_of(ip)),
{
    match ip {
        IpAddr::V4(octets) => IpAddr::V4(octets),
        IpAddr::V6(octets) => {
            if all_zero(&octets, 0, 10) && octets[10] == 0xff && octets[11] == 0xff {
                let inner: [u8; 4] = [octets[12], octets[13], octets[14], octets[15]];
                assert(inner@ =~= octets@.subrange(12, 16));
                IpAddr::V4(inner)
            } else {
                IpAddr::V6(octets)
            }
        },
    }
}

/// The IPv4 address an IPv6 transition address carries, if it carries one.
pub fn embedded_ipv4(ip: IpAddr) -> (inner: Option<[u8; 4]>)
    ensures
        match (inner, octets_of(ip)) {
            (Some(inner), Octets::V6(octets)) => carried(octets) == Some(inner@),
            (None, Octets::V6(octets)) => carried(octets) is None,
            (Some(_), Octets::V4(_)) => false,
            (None, Octets::V4(_)) => true,
        },
{
    let octets: [u8; 16] = match ip {
        IpAddr::V4(_) => {
            return None;
        },
        IpAddr::V6(octets) => octets,
    };
    if octets[0] == 0x00 && octets[1] == 0x64 && octets[2] == 0xff && octets[3] == 0x9b {
        if all_zero(&octets, 4, 12) {
            let inner: [u8; 4] = [octets[12], octets[13], octets[14], octets[15]];
            assert(inner@ =~= octets@.subrange(12, 16));
            return Some(inner);
        }
        if octets[4] == 0x00 && octets[5] == 0x01 {
            let inner: [u8; 4] = [octets[6], octets[7], octets[9], octets[10]];
            assert(inner@ =~= seq![octets@[6], octets@[7], octets@[9], octets@[10]]);
            return Some(inner);
        }
        proof {
            lemma_not_zero(octets@);
        }
    }
    if octets[0] == 0x20 && octets[1] == 0x02 {
        let inner: [u8; 4] = [octets[2], octets[3], octets[4], octets[5]];
        assert(inner@ =~= octets@.subrange(2, 6));
        return Some(inner);
    }
    if octets[0] == 0x20 && octets[1] == 0x01 && octets[2] == 0x00 && octets[3] == 0x00 {
        let inner: [u8; 4] = [
            255 - octets[12],
            255 - octets[13],
            255 - octets[14],
            255 - octets[15],
        ];
        assert(inner@ =~= seq![
            (255 - octets@[12]) as u8,
            (255 - octets@[13]) as u8,
            (255 - octets@[14]) as u8,
            (255 - octets@[15]) as u8,
        ]);
        return Some(inner);
    }
    None
}

proof fn lemma_not_zero(octets: Seq<u8>)
    requires
        octets.len() == 16,
        !(forall|i: int| 4 <= i < 12 ==> #[trigger] octets[i] == 0),
    ensures
        !(segment(octets, 2) == 0 && segment(octets, 3) == 0 && segment(octets, 4) == 0
            && segment(octets, 5) == 0),
{
    if segment(octets, 2) == 0 && segment(octets, 3) == 0 && segment(octets, 4) == 0 && segment(
        octets,
        5,
    ) == 0 {
        assert forall|i: int| 4 <= i < 12 implies #[trigger] octets[i] == 0 by {
            if i == 4 || i == 5 {
            } else if i == 6 || i == 7 {
            } else if i == 8 || i == 9 {
            } else {
            }
        }
    }
}

/// The three IPv4 documentation ranges.
fn is_ipv4_documentation(octets: [u8; 4]) -> (result: bool)
    ensures
        result == v4_documentation(octets@),
{
    (octets[0] == 192 && octets[1] == 0 && octets[2] == 2) || (octets[0] == 198 && octets[1] == 51
        && octets[2] == 100) || (octets[0] == 203 && octets[1] == 0 && octets[2] == 113)
}

/// Addresses that are never a tunnel's target.
fn is_never_allowed(ip: IpAddr) -> (result: bool)
    ensures
        result == never_allowed(octets_of(ip)),
{
    match ip {
        IpAddr::V4(octets) => {
            assert(octets@ =~= seq![octets@[0], octets@[1], octets@[2], octets@[3]]);
            (octets[0] == 0 && octets[1] == 0 && octets[2] == 0 && octets[3] == 0) || (octets[0]
                == 255 && octets[1] == 255 && octets[2] == 255 && octets[3] == 255) || (octets[0]
                >= 224 && octets[0] <= 239)
        },
        IpAddr::V6(octets) => all_zero(&octets, 0, 16) || octets[0] == 0xff,
    }
}

/// Addresses that are reachable only where private networks are.
fn is_private(ip: IpAddr) -> (result: bool)
    ensures
        result == private(octets_of(ip)),
{
    match ip {
        IpAddr::V4(octets) => {
            let a: u8 = octets[0];
            let b: u8 = octets[1];
            a == 127 || a == 10 || (a == 172 && b >= 16 && b <= 31) || (a == 192 && b == 168) || (a
                == 169 && b == 254) || (a == 100 && b >= 64 && b <= 127) || (a == 192 && b == 0
                && octets[2] == 0) || (a == 198 && (b == 18 || b == 19)) || a >= 240
                || is_ipv4_documentation(octets)
        },
        IpAddr::V6(octets) => is_ipv4_compatible(&octets) || is_unique_local(&octets)
            || is_unicast_link_local(&octets) || is_ipv6_documentation(&octets)
            || is_discard_only(&octets),
    }
}

/// `::/96`, and loopback with it.
fn is_ipv4_compatible(octets: &[u8; 16]) -> (result: bool)
    ensures
        result == zeroes(octets@, 12),
{
    all_zero(octets, 0, 12)
}

/// `fc00::/7`.
fn is_unique_local(octets: &[u8; 16]) -> (result: bool)
    ensures
        result == (0xfc00 <= segment(octets@, 0) <= 0xfdff),
{
    octets[0] == 0xfc || octets[0] == 0xfd
}

/// `fe80::/10`.
fn is_unicast_link_local(octets: &[u8; 16]) -> (result: bool)
    ensures
        result == (0xfe80 <= segment(octets@, 0) <= 0xfebf),
{
    octets[0] == 0xfe && octets[1] >= 0x80 && octets[1] <= 0xbf
}

/// `2001:db8::/32`.
fn is_ipv6_documentation(octets: &[u8; 16]) -> (result: bool)
    ensures
        result == (segment(octets@, 0) == 0x2001 && segment(octets@, 1) == 0x0db8),
{
    octets[0] == 0x20 && octets[1] == 0x01 && octets[2] == 0x0d && octets[3] == 0xb8
}

/// `100::/64`.
fn is_discard_only(octets: &[u8; 16]) -> (result: bool)
    ensures
        result == (segment(octets@, 0) == 0x0100 && segment(octets@, 1) == 0 && segment(octets@, 2)
            == 0 && segment(octets@, 3) == 0),
{
    octets[0] == 0x01 && octets[1] == 0x00 && octets[2] == 0 && octets[3] == 0 && octets[4] == 0
        && octets[5] == 0 && octets[6] == 0 && octets[7] == 0
}

/// The destination rules in force for a connection.
#[derive(Debug)]
pub struct Policy {
    allow_private_networks: bool,
    denied_ports: Vec<u16>,
}

impl Policy {
    /// Whether private networks may be reached.
    pub closed spec fn allow_private(self) -> bool {
        self.allow_private_networks
    }

    /// The ports that are refused.
    pub closed spec fn denied(self) -> Seq<u16> {
        self.denied_ports@
    }

    /// Builds the policy that the settings describe.
    pub fn new(security: &Security) -> (policy: Policy)
        ensures
            policy.allow_private() == security.allow_private_networks,
            policy.denied() == security.denied_ports@,
    {
        Policy {
            allow_private_networks: security.allow_private_networks,
            denied_ports: vstd::slice::slice_to_vec(security.denied_ports.as_slice()),
        }
    }

    /// Whether a target port may be reached at all.
    pub fn allows_port(&self, port: u16) -> (allowed: bool)
        ensures
            allowed == port_allowed(self.denied(), port),
            allowed <==> !self.denied().contains(port),
    {
        let mut at: usize = 0;
        while at < self.denied_ports.len()
            invariant
                at <= self.denied_ports.len(),
                forall|i: int| 0 <= i < at ==> #[trigger] self.denied_ports@[i] != port,
            decreases self.denied_ports.len() - at,
        {
            if self.denied_ports[at] == port {
                return false;
            }
            at = at + 1;
        }
        true
    }

    /// Whether one resolved address may be dialled.
    pub fn allows_address(&self, ip: IpAddr) -> (allowed: bool)
        ensures
            allowed == reachable(self.allow_private(), octets_of(ip)),
    {
        let routed_ip: IpAddr = canonical(ip);
        let judged: IpAddr = match embedded_ipv4(routed_ip) {
            Some(inner) => IpAddr::V4(inner),
            None => routed_ip,
        };
        if is_never_allowed(judged) {
            return false;
        }
        if is_private(judged) {
            return self.allow_private_networks;
        }
        true
    }

    /// The addresses among these that may be dialled, in order.
    pub fn allowed_addresses(&self, addresses: &[SocketAddr]) -> (allowed: Vec<SocketAddr>)
        ensures
            allowed@ == addresses@.filter(
                |address: SocketAddr| reachable(self.allow_private(), octets_of(address.ip)),
            ),
            allowed@ == dialable(addresses@, self.allow_private()),
    {
        let ghost keep = |address: SocketAddr|
            reachable(self.allow_private(), octets_of(address.ip));
        let mut allowed: Vec<SocketAddr> = Vec::new();
        let mut at: usize = 0;
        proof {
            reveal(Seq::filter);
            assert(addresses@.subrange(0, 0) =~= Seq::<SocketAddr>::empty());
        }
        while at < addresses.len()
            invariant
                at <= addresses.len(),
                keep == (|address: SocketAddr|
                    reachable(self.allow_private(), octets_of(address.ip))),
                allowed@ == addresses@.subrange(0, at as int).filter(keep),
            decreases addresses.len() - at,
        {
            proof {
                reveal(Seq::filter);
                let longer = addresses@.subrange(0, at as int + 1);
                assert(longer.drop_last() =~= addresses@.subrange(0, at as int));
                assert(longer.last() == addresses@[at as int]);
            }
            if self.allows_address(addresses[at].ip) {
                allowed.push(addresses[at]);
            }
            at = at + 1;
        }
        assert(addresses@.subrange(0, at as int) =~= addresses@);
        allowed
    }
}

/// Whether these are the addresses of a name that a filtering resolver blocks.
pub open spec fn blackholed(addresses: Seq<SocketAddr>) -> bool {
    addresses.len() > 0 && forall|i: int|
        0 <= i < addresses.len() ==> unspecified(routed(octets_of((#[trigger] addresses[i]).ip)))
}

/// Whether every resolved address is the unspecified one: what a filtering
/// resolver answers for a name that it blocks. An empty answer is not.
pub fn is_dns_blackhole(addresses: &[SocketAddr]) -> (blackhole: bool)
    ensures
        blackhole == blackholed(addresses@),
        blackhole <==> addresses@.len() > 0 && forall|i: int|
            0 <= i < addresses@.len() ==> unspecified(
                routed(octets_of((#[trigger] addresses@[i]).ip)),
            ),
{
    if addresses.len() == 0 {
        return false;
    }
    let mut at: usize = 0;
    while at < addresses.len()
        invariant
            at <= addresses.len(),
            forall|i: int|
                0 <= i < at ==> unspecified(routed(octets_of((#[trigger] addresses@[i]).ip))),
        decreases addresses.len() - at,
    {
        if !is_unspecified(canonical(addresses[at].ip)) {
            return false;
        }
        at = at + 1;
    }
    true
}

fn is_unspecified(ip: IpAddr) -> (result: bool)
    ensures
        result == unspecified(octets_of(ip)),
{
    match ip {
        IpAddr::V4(octets) => {
            assert(octets@ =~= seq![octets@[0], octets@[1], octets@[2], octets@[3]]);
            octets[0] == 0 && octets[1] == 0 && octets[2] == 0 && octets[3] == 0
        },
        IpAddr::V6(octets) => all_zero(&octets, 0, 16),
    }
}

// ---------------------------------------------------------------------------
// Laws
// ---------------------------------------------------------------------------

/// What is no destination stays out of reach whatever is opened, and opening
/// private networks takes nothing away.
pub proof fn opening_private_networks_only_adds(ip: Octets)
    ensures
        never_allowed(judged_as(ip)) ==> !reachable(true, ip),
        reachable(false, ip) ==> reachable(true, ip),
        reachable(true, ip) && !reachable(false, ip) ==> private(judged_as(ip)),
{
}

/// `::ffff:a.b.c.d` for an IPv4 address.
pub open spec fn mapped(v4: Seq<u8>) -> Seq<u8> {
    seq![0u8, 0u8, 0u8, 0u8, 0u8, 0u8, 0u8, 0u8, 0u8, 0u8, 0xffu8, 0xffu8] + v4
}

/// `64:ff9b::a.b.c.d` for an IPv4 address.
pub open spec fn nat64(v4: Seq<u8>) -> Seq<u8> {
    seq![0u8, 0x64u8, 0xffu8, 0x9bu8, 0u8, 0u8, 0u8, 0u8, 0u8, 0u8, 0u8, 0u8] + v4
}

/// `64:ff9b:1::/48` around an IPv4 address, split about its ninth octet.
pub open spec fn local_nat64(v4: Seq<u8>, reserved: u8, suffix: Seq<u8>) -> Seq<u8> {
    seq![0u8, 0x64u8, 0xffu8, 0x9bu8, 0u8, 1u8, v4[0], v4[1], reserved, v4[2], v4[3]] + suffix
}

/// `2002::/16` before an IPv4 address and a suffix.
pub open spec fn six_to_four(v4: Seq<u8>, suffix: Seq<u8>) -> Seq<u8> {
    seq![0x20u8, 0x02u8] + v4 + suffix
}

/// `2001::/32`, a server field, and an IPv4 address with its bits inverted.
pub open spec fn teredo(v4: Seq<u8>, server: Seq<u8>) -> Seq<u8> {
    seq![0x20u8, 0x01u8, 0u8, 0u8] + server + seq![
        (255 - v4[0]) as u8,
        (255 - v4[1]) as u8,
        (255 - v4[2]) as u8,
        (255 - v4[3]) as u8,
    ]
}

/// An IPv4 address is judged the same in every disguise: mapped, and behind any
/// of the transition prefixes, whatever fills the rest of the address.
pub proof fn disguises_make_no_difference(
    allow_private: bool,
    v4: Seq<u8>,
    reserved: u8,
    five: Seq<u8>,
    ten: Seq<u8>,
    eight: Seq<u8>,
)
    requires
        v4.len() == 4,
        five.len() == 5,
        ten.len() == 10,
        eight.len() == 8,
    ensures
        reachable(allow_private, Octets::V6(mapped(v4))) == reachable(
            allow_private,
            Octets::V4(v4),
        ),
        reachable(allow_private, Octets::V6(nat64(v4))) == reachable(
            allow_private,
            Octets::V4(v4),
        ),
        reachable(allow_private, Octets::V6(local_nat64(v4, reserved, five))) == reachable(
            allow_private,
            Octets::V4(v4),
        ),
        reachable(allow_private, Octets::V6(six_to_four(v4, ten))) == reachable(
            allow_private,
            Octets::V4(v4),
        ),
        reachable(allow_private, Octets::V6(teredo(v4, eight))) == reachable(
            allow_private,
            Octets::V4(v4),
        ),
{
    let m = mapped(v4);
    assert(zeroes(m, 10));
    assert(m.subrange(12, 16) =~= v4);
    let n = nat64(v4);
    assert(n[1] == 0x64);
    assert(!is_mapped(n));
    assert(n.subrange(12, 16) =~= v4);
    let l = local_nat64(v4, reserved, five);
    assert(l[1] == 0x64);
    assert(!is_mapped(l));
    assert(seq![l[6], l[7], l[9], l[10]] =~= v4);
    let s = six_to_four(v4, ten);
    assert(s[0] == 0x20);
    assert(!is_mapped(s));
    assert(s.subrange(2, 6) =~= v4);
    let t = teredo(v4, eight);
    assert(t[0] == 0x20);
    assert(!is_mapped(t));
    assert(seq![
        (255 - t[12]) as u8,
        (255 - t[13]) as u8,
        (255 - t[14]) as u8,
        (255 - t[15]) as u8,
    ] =~= v4);
}

/// What a filtering resolver answers is never dialled.
pub proof fn blackholes_are_unreachable(allow_private: bool, ip: Octets)
    requires
        unspecified(routed(ip)),
    ensures
        !reachable(allow_private, ip),
{
    if let Octets::V6(octets) = routed(ip) {
        assert(octets[0] == 0 && octets[1] == 0);
        assert(carried(octets) is None);
    }
}

} // verus!
