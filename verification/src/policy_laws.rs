//! The address blocks, stated by their prefixes: which destinations may be reached.

use vstd::arithmetic::power2::{lemma2_to64, pow2};
use vstd::prelude::*;

use crate::ip::SocketAddr;
use crate::policy::{
    Octets, blackholed, carried, dialable, is_mapped, local_nat64, mapped, nat64, octets_of,
    port_allowed, reachable, routed, six_to_four, teredo, unspecified,
};

verus! {

/// An IPv4 address as one number.
pub open spec fn number(octets: Seq<u8>) -> nat {
    (((octets[0] as nat * 256 + octets[1] as nat) * 256 + octets[2] as nat) * 256
        + octets[3] as nat) as nat
}

/// Whether an IPv4 address lies in the block `a.b.c.d/bits`: the two agree in their
/// first `bits` bits.
pub open spec fn under(octets: Seq<u8>, a: u8, b: u8, c: u8, d: u8, bits: nat) -> bool {
    let host = pow2((32 - bits) as nat);
    number(octets) / host == number(seq![a, b, c, d]) / host
}

/// Whether an IPv6 address starts with these octets.
pub open spec fn starts(octets: Seq<u8>, prefix: Seq<u8>) -> bool {
    octets.subrange(0, prefix.len() as int) == prefix
}

/// Whether an IPv4 address is one of a block that is never a destination.
pub open spec fn v4_unusable(octets: Seq<u8>) -> bool {
    ||| under(octets, 0, 0, 0, 0, 32)
    ||| under(octets, 224, 0, 0, 0, 4)
    ||| under(octets, 255, 255, 255, 255, 32)
}

/// Whether an IPv4 address is one of a block of special purpose.
pub open spec fn v4_special(octets: Seq<u8>) -> bool {
    ||| under(octets, 10, 0, 0, 0, 8)
    ||| under(octets, 100, 64, 0, 0, 10)
    ||| under(octets, 127, 0, 0, 0, 8)
    ||| under(octets, 169, 254, 0, 0, 16)
    ||| under(octets, 172, 16, 0, 0, 12)
    ||| under(octets, 192, 0, 0, 0, 24)
    ||| under(octets, 192, 0, 2, 0, 24)
    ||| under(octets, 192, 168, 0, 0, 16)
    ||| under(octets, 198, 18, 0, 0, 15)
    ||| under(octets, 198, 51, 100, 0, 24)
    ||| under(octets, 203, 0, 113, 0, 24)
    ||| under(octets, 240, 0, 0, 0, 4)
}

proof fn lemma_single(octets: Seq<u8>, a: u8, b: u8, c: u8, d: u8)
    requires
        octets.len() == 4,
    ensures
        under(octets, a, b, c, d, 32) <==> octets == seq![a, b, c, d],
{
    lemma2_to64();
    let host = pow2(0);
    assert(host == 1);
    assert(number(octets) / host == number(octets));
    assert(number(seq![a, b, c, d]) / host == number(seq![a, b, c, d]));
    if number(octets) == number(seq![a, b, c, d]) {
        assert(octets =~= seq![a, b, c, d]);
    }
}

/// A block is a run of addresses.
proof fn lemma_run(octets: Seq<u8>, a: u8, b: u8, c: u8, d: u8, bits: nat, host: nat)
    requires
        octets.len() == 4,
        bits <= 32,
        host == pow2((32 - bits) as nat),
        host > 0,
        number(seq![a, b, c, d]) % host == 0,
    ensures
        under(octets, a, b, c, d, bits) <==> number(seq![a, b, c, d]) <= number(octets) < number(
            seq![a, b, c, d],
        ) + host,
{
    let n = number(octets) as int;
    let m = number(seq![a, b, c, d]) as int;
    let h = host as int;
    vstd::arithmetic::div_mod::lemma_fundamental_div_mod(n, h);
    vstd::arithmetic::div_mod::lemma_fundamental_div_mod(m, h);
    vstd::arithmetic::div_mod::lemma_mod_bound(n, h);
    let q = n / h;
    let p = m / h;
    if m <= n < m + h {
        assert(q == p) by (nonlinear_arith)
            requires
                n == h * q + n % h,
                0 <= n % h < h,
                m == h * p,
                m <= n < m + h,
                h > 0,
        ;
    }
}

/// An IPv4 address may be reached exactly where it is under no block that is never
/// a destination, and under no block of special purpose or those are opened.
pub proof fn v4_blocks_decide(allow_private: bool, octets: Seq<u8>)
    requires
        octets.len() == 4,
    ensures
        reachable(allow_private, Octets::V4(octets)) <==> !v4_unusable(octets) && (allow_private
            || !v4_special(octets)),
{
    lemma2_to64();
    assert(octets =~= seq![octets[0], octets[1], octets[2], octets[3]]);
    lemma_single(octets, 0, 0, 0, 0);
    lemma_single(octets, 255, 255, 255, 255);
    lemma_run(octets, 224, 0, 0, 0, 4, 0x10000000);
    assert(under(octets, 224, 0, 0, 0, 4) <==> 224 <= octets[0] <= 239);
    lemma_run(octets, 10, 0, 0, 0, 8, 0x1000000);
    assert(under(octets, 10, 0, 0, 0, 8) <==> octets[0] == 10);
    lemma_run(octets, 100, 64, 0, 0, 10, 0x400000);
    assert(under(octets, 100, 64, 0, 0, 10) <==> octets[0] == 100 && 64 <= octets[1] <= 127);
    lemma_run(octets, 127, 0, 0, 0, 8, 0x1000000);
    assert(under(octets, 127, 0, 0, 0, 8) <==> octets[0] == 127);
    lemma_run(octets, 169, 254, 0, 0, 16, 0x10000);
    assert(under(octets, 169, 254, 0, 0, 16) <==> octets[0] == 169 && octets[1] == 254);
    lemma_run(octets, 172, 16, 0, 0, 12, 0x100000);
    assert(under(octets, 172, 16, 0, 0, 12) <==> octets[0] == 172 && 16 <= octets[1] <= 31);
    lemma_run(octets, 192, 0, 0, 0, 24, 0x100);
    assert(under(octets, 192, 0, 0, 0, 24) <==> octets[0] == 192 && octets[1] == 0 && octets[2] == 0);
    lemma_run(octets, 192, 0, 2, 0, 24, 0x100);
    assert(under(octets, 192, 0, 2, 0, 24) <==> octets[0] == 192 && octets[1] == 0 && octets[2] == 2);
    lemma_run(octets, 192, 168, 0, 0, 16, 0x10000);
    assert(under(octets, 192, 168, 0, 0, 16) <==> octets[0] == 192 && octets[1] == 168);
    lemma_run(octets, 198, 18, 0, 0, 15, 0x20000);
    assert(under(octets, 198, 18, 0, 0, 15) <==> octets[0] == 198 && 18 <= octets[1] <= 19);
    lemma_run(octets, 198, 51, 100, 0, 24, 0x100);
    assert(under(octets, 198, 51, 100, 0, 24) <==> octets[0] == 198 && octets[1] == 51 && octets[2] == 100);
    lemma_run(octets, 203, 0, 113, 0, 24, 0x100);
    assert(under(octets, 203, 0, 113, 0, 24) <==> octets[0] == 203 && octets[1] == 0 && octets[2] == 113);
    lemma_run(octets, 240, 0, 0, 0, 4, 0x10000000);
    assert(under(octets, 240, 0, 0, 0, 4) <==> octets[0] >= 240);
}

/// Every address from 172.16.0.0 to 172.31.255.255, and every one of the other
/// private networks, is refused unless private networks are opened.
pub proof fn private_networks_are_refused(octets: Seq<u8>)
    requires
        octets.len() == 4,
        octets[0] == 10 || (octets[0] == 172 && 16 <= octets[1] <= 31) || (octets[0] == 192
            && octets[1] == 168) || octets[0] == 127 || (octets[0] == 169 && octets[1] == 254),
    ensures
        !reachable(false, Octets::V4(octets)),
        reachable(true, Octets::V4(octets)),
{
    assert(octets =~= seq![octets[0], octets[1], octets[2], octets[3]]);
}

/// Whether an IPv6 address carries an IPv4 one that it is judged by: mapped, or
/// under one of the transition prefixes.
pub open spec fn carries_v4(octets: Seq<u8>) -> bool {
    ||| starts(octets, seq![0u8, 0, 0, 0, 0, 0, 0, 0, 0, 0, 0xff, 0xff])
    ||| starts(octets, seq![0u8, 0x64, 0xff, 0x9b, 0, 0, 0, 0, 0, 0, 0, 0])
    ||| starts(octets, seq![0u8, 0x64, 0xff, 0x9b, 0, 1])
    ||| starts(octets, seq![0x20u8, 0x02])
    ||| starts(octets, seq![0x20u8, 0x01, 0, 0])
}

/// Whether an IPv6 address is the unspecified one or under `ff00::/8`.
pub open spec fn v6_unusable(octets: Seq<u8>) -> bool {
    ||| starts(octets, seq![0u8, 0, 0, 0, 0, 0, 0, 0, 0, 0, 0, 0, 0, 0, 0, 0])
    ||| starts(octets, seq![0xffu8])
}

/// Whether an IPv6 address is under `::/96`, `fc00::/7`, `fe80::/10`,
/// `2001:db8::/32` or `100::/64`.
pub open spec fn v6_special(octets: Seq<u8>) -> bool {
    ||| starts(octets, seq![0u8, 0, 0, 0, 0, 0, 0, 0, 0, 0, 0, 0])
    ||| octets[0] / 2 == 0x7e
    ||| octets[0] == 0xfe && octets[1] / 64 == 2
    ||| starts(octets, seq![0x20u8, 0x01, 0x0d, 0xb8])
    ||| starts(octets, seq![0x01u8, 0, 0, 0, 0, 0, 0, 0])
}

/// What an address starts with, octet by octet.
proof fn lemma_starts(octets: Seq<u8>, prefix: Seq<u8>)
    requires
        prefix.len() <= octets.len(),
    ensures
        starts(octets, prefix) <==> forall|i: int|
            0 <= i < prefix.len() ==> #[trigger] octets[i] == prefix[i],
{
    let head = octets.subrange(0, prefix.len() as int);
    if forall|i: int| 0 <= i < prefix.len() ==> #[trigger] octets[i] == prefix[i] {
        assert(head =~= prefix);
    }
    if starts(octets, prefix) {
        assert forall|i: int| 0 <= i < prefix.len() implies #[trigger] octets[i] == prefix[i] by {
            assert(head[i] == octets[i]);
        }
    }
}

proof fn lemma_zero_prefix(octets: Seq<u8>, zeros: Seq<u8>)
    requires
        zeros.len() <= octets.len(),
        forall|i: int| 0 <= i < zeros.len() ==> #[trigger] zeros[i] == 0,
    ensures
        starts(octets, zeros) <==> crate::ip::zeroes(octets, zeros.len() as int),
{
    lemma_starts(octets, zeros);
}

/// An IPv6 address that carries no IPv4 one may be reached exactly where it is
/// under no block that is never a destination, and under no block of special
/// purpose or those are opened.
pub proof fn v6_blocks_decide(allow_private: bool, octets: Seq<u8>)
    requires
        octets.len() == 16,
        !carries_v4(octets),
    ensures
        reachable(allow_private, Octets::V6(octets)) <==> !v6_unusable(octets) && (allow_private
            || !v6_special(octets)),
{
    lemma_v4_carriers(octets);
    lemma_zero_prefix(octets, seq![0u8, 0, 0, 0, 0, 0, 0, 0, 0, 0, 0, 0, 0, 0, 0, 0]);
    lemma_zero_prefix(octets, seq![0u8, 0, 0, 0, 0, 0, 0, 0, 0, 0, 0, 0]);
    lemma_starts(octets, seq![0xffu8]);
    assert(starts(octets, seq![0xffu8]) <==> octets[0] == 0xff);
    lemma_four(octets, 0x20, 0x01, 0x0d, 0xb8);
    lemma_discard(octets);
}

proof fn lemma_four(octets: Seq<u8>, a: u8, b: u8, c: u8, d: u8)
    requires
        octets.len() == 16,
    ensures
        starts(octets, seq![a, b, c, d]) <==> octets[0] == a && octets[1] == b && octets[2] == c
            && octets[3] == d,
        starts(octets, seq![a, b]) <==> octets[0] == a && octets[1] == b,
{
    lemma_starts(octets, seq![a, b, c, d]);
    lemma_starts(octets, seq![a, b]);
    assert(seq![a, b, c, d][0] == a && seq![a, b, c, d][1] == b && seq![a, b, c, d][2] == c
        && seq![a, b, c, d][3] == d);
    assert(seq![a, b][0] == a && seq![a, b][1] == b);
    if starts(octets, seq![a, b, c, d]) {
        assert(octets[0] == a && octets[1] == b && octets[2] == c && octets[3] == d);
    }
    if starts(octets, seq![a, b]) {
        assert(octets[0] == a && octets[1] == b);
    }
}

proof fn lemma_discard(octets: Seq<u8>)
    requires
        octets.len() == 16,
    ensures
        starts(octets, seq![0x01u8, 0, 0, 0, 0, 0, 0, 0]) <==> crate::ip::segment(octets, 0)
            == 0x100 && crate::ip::segment(octets, 1) == 0 && crate::ip::segment(octets, 2) == 0
            && crate::ip::segment(octets, 3) == 0,
{
    let prefix = seq![0x01u8, 0, 0, 0, 0, 0, 0, 0];
    lemma_starts(octets, prefix);
    if starts(octets, prefix) {
        assert(octets[0] == prefix[0] && octets[1] == prefix[1] && octets[2] == prefix[2]
            && octets[3] == prefix[3] && octets[4] == prefix[4] && octets[5] == prefix[5]
            && octets[6] == prefix[6] && octets[7] == prefix[7]);
    } else if crate::ip::segment(octets, 0) == 0x100 && crate::ip::segment(octets, 1) == 0
        && crate::ip::segment(octets, 2) == 0 && crate::ip::segment(octets, 3) == 0 {
        assert forall|i: int| 0 <= i < 8 implies #[trigger] octets[i] == prefix[i] by {}
    }
}

/// Which IPv6 addresses carry an IPv4 one.
proof fn lemma_v4_carriers(octets: Seq<u8>)
    requires
        octets.len() == 16,
    ensures
        is_mapped(octets) ==> carries_v4(octets),
        carried(octets) is Some ==> carries_v4(octets),
{
    if is_mapped(octets) {
        lemma_starts(octets, seq![0u8, 0, 0, 0, 0, 0, 0, 0, 0, 0, 0xff, 0xff]);
    }
    lemma_starts(octets, seq![0u8, 0x64, 0xff, 0x9b, 0, 0, 0, 0, 0, 0, 0, 0]);
    lemma_starts(octets, seq![0u8, 0x64, 0xff, 0x9b, 0, 1]);
    lemma_four(octets, 0x20, 0x02, 0, 0);
    lemma_four(octets, 0x20, 0x01, 0, 0);
    if carried(octets) is Some {
        assert(octets[0] == crate::ip::segment(octets, 0) / 256);
        let a = seq![0u8, 0x64, 0xff, 0x9b, 0, 0, 0, 0, 0, 0, 0, 0];
        let b = seq![0u8, 0x64, 0xff, 0x9b, 0, 1];
        if crate::ip::segment(octets, 0) == 0x64 && crate::ip::segment(octets, 1) == 0xff9b {
            if crate::ip::segment(octets, 2) == 1 {
                assert forall|i: int| 0 <= i < 6 implies #[trigger] octets[i] == b[i] by {}
            } else {
                assert forall|i: int| 0 <= i < 12 implies #[trigger] octets[i] == a[i] by {}
            }
        }
    }
}

/// A name that a filtering resolver blocks is one whose addresses are all 0.0.0.0,
/// `::` or `::ffff:0.0.0.0`.
pub proof fn blackholes_are_the_unspecified_addresses(v4: Seq<u8>, v6: Seq<u8>)
    requires
        v4.len() == 4,
        v6.len() == 16,
    ensures
        unspecified(routed(Octets::V4(v4))) <==> number(v4) == 0,
        unspecified(routed(Octets::V6(v6))) <==> starts(
            v6,
            seq![0u8, 0, 0, 0, 0, 0, 0, 0, 0, 0, 0, 0, 0, 0, 0, 0],
        ) || starts(v6, seq![0u8, 0, 0, 0, 0, 0, 0, 0, 0, 0, 0xff, 0xff, 0, 0, 0, 0]),
{
    assert(v4 =~= seq![v4[0], v4[1], v4[2], v4[3]]);
    lemma_zero_prefix(v6, seq![0u8, 0, 0, 0, 0, 0, 0, 0, 0, 0, 0, 0, 0, 0, 0, 0]);
    let mapped = seq![0u8, 0, 0, 0, 0, 0, 0, 0, 0, 0, 0xff, 0xff, 0, 0, 0, 0];
    lemma_starts(v6, mapped);
    if is_mapped(v6) {
        let inner = v6.subrange(12, 16);
        assert(inner =~= seq![v6[12], v6[13], v6[14], v6[15]]);
        if inner == seq![0u8, 0u8, 0u8, 0u8] {
            assert(inner[0] == 0 && inner[1] == 0 && inner[2] == 0 && inner[3] == 0);
            assert forall|i: int| 0 <= i < 16 implies #[trigger] v6[i] == mapped[i] by {}
        }
        if starts(v6, mapped) {
            assert(v6[12] == mapped[12] && v6[13] == mapped[13] && v6[14] == mapped[14] && v6[15]
                == mapped[15]);
        }
        assert(v6[10] == 0xff);
    } else if starts(v6, mapped) {
        assert(v6[10] == mapped[10] && v6[11] == mapped[11]);
        assert(crate::ip::zeroes(v6, 10)) by {
            assert forall|i: int| 0 <= i < 10 implies #[trigger] v6[i] == 0 by {
                assert(v6[i] == mapped[i]);
            }
        }
    }
}

/// Of a list of addresses those stay that may be reached, each where it stood: of one
/// address itself or nothing, and of two lists behind each other what stays of each.
pub proof fn each_address_is_judged_by_itself(
    first: Seq<SocketAddr>,
    second: Seq<SocketAddr>,
    address: SocketAddr,
    allow_private: bool,
)
    ensures
        dialable(Seq::empty(), allow_private) == Seq::<SocketAddr>::empty(),
        dialable(seq![address], allow_private) == if reachable(
            allow_private,
            octets_of(address.ip),
        ) {
            seq![address]
        } else {
            Seq::empty()
        },
        dialable(first + second, allow_private) == dialable(first, allow_private) + dialable(
            second,
            allow_private,
        ),
    decreases second.len(),
{
    reveal(Seq::filter);
    let none = Seq::<SocketAddr>::empty();
    assert(seq![address].drop_last() =~= none);
    assert(dialable(none, allow_private) =~= none);
    assert(none.push(address) =~= seq![address]);
    let all = first + second;
    if second.len() == 0 {
        assert(all =~= first);
        assert(dialable(first, allow_private) + dialable(second, allow_private) =~= dialable(
            first,
            allow_private,
        ));
    } else {
        each_address_is_judged_by_itself(first, second.drop_last(), address, allow_private);
        assert(all.drop_last() =~= first + second.drop_last());
        assert(all.last() == second.last());
        assert(dialable(all, allow_private) =~= dialable(first, allow_private) + dialable(
            second,
            allow_private,
        ));
    }
}

/// An address that carries an IPv4 one carries exactly that one: mapped, behind both
/// NAT64 prefixes, behind 6to4, and inverted behind Teredo. Any other is routed as
/// it is.
pub proof fn carried_addresses_come_out(
    v4: Seq<u8>,
    reserved: u8,
    five: Seq<u8>,
    ten: Seq<u8>,
    eight: Seq<u8>,
    other: Seq<u8>,
)
    requires
        v4.len() == 4,
        five.len() == 5,
        ten.len() == 10,
        eight.len() == 8,
        other.len() == 16,
    ensures
        routed(Octets::V4(v4)) == Octets::V4(v4),
        routed(Octets::V6(mapped(v4))) == Octets::V4(v4),
        carried(nat64(v4)) == Some(v4),
        carried(local_nat64(v4, reserved, five)) == Some(v4),
        carried(six_to_four(v4, ten)) == Some(v4),
        carried(teredo(v4, eight)) == Some(v4),
        !carries_v4(other) ==> routed(Octets::V6(other)) == Octets::V6(other) && carried(
            other,
        ) is None,
{
    let m = mapped(v4);
    assert(crate::ip::zeroes(m, 10));
    assert(m.subrange(12, 16) =~= v4);
    assert(nat64(v4).subrange(12, 16) =~= v4);
    let l = local_nat64(v4, reserved, five);
    assert(seq![l[6], l[7], l[9], l[10]] =~= v4);
    assert(six_to_four(v4, ten).subrange(2, 6) =~= v4);
    let t = teredo(v4, eight);
    assert(seq![
        (255 - t[12]) as u8,
        (255 - t[13]) as u8,
        (255 - t[14]) as u8,
        (255 - t[15]) as u8,
    ] =~= v4);
    lemma_v4_carriers(other);
}

/// A port may be reached exactly where it is none of those that are denied.
pub proof fn denied_ports_are_refused(denied: Seq<u16>, port: u16)
    ensures
        port_allowed(denied, port) <==> forall|i: int|
            0 <= i < denied.len() ==> #[trigger] denied[i] != port,
{
}

/// An answer is that of a blocked name where there is an address in it and each one
/// is unspecified: a name without addresses is not blocked, and one address of any
/// other kind is enough.
pub proof fn blocked_names_have_no_other_address(
    first: Seq<SocketAddr>,
    second: Seq<SocketAddr>,
    address: SocketAddr,
)
    ensures
        !blackholed(Seq::empty()),
        blackholed(seq![address]) <==> unspecified(routed(octets_of(address.ip))),
        first.len() > 0 && second.len() > 0 ==> (blackholed(first + second) <==> blackholed(first)
            && blackholed(second)),
{
    assert(seq![address][0] == address);
    let all = first + second;
    if first.len() > 0 && second.len() > 0 {
        if blackholed(all) {
            assert forall|i: int| 0 <= i < first.len() implies unspecified(
                routed(octets_of((#[trigger] first[i]).ip)),
            ) by {
                assert(all[i] == first[i]);
            }
            assert forall|i: int| 0 <= i < second.len() implies unspecified(
                routed(octets_of((#[trigger] second[i]).ip)),
            ) by {
                assert(all[first.len() + i] == second[i]);
            }
        }
        if blackholed(first) && blackholed(second) {
            assert forall|i: int| 0 <= i < all.len() implies unspecified(
                routed(octets_of((#[trigger] all[i]).ip)),
            ) by {
                if i < first.len() {
                    assert(all[i] == first[i]);
                } else {
                    assert(all[i] == second[i - first.len()]);
                }
            }
        }
    }
}

} // verus!
