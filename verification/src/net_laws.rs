//! The order addresses are tried in, and who gets a lookup slot.

use vstd::prelude::*;

use crate::config::IpFamilyPreference;
use crate::ip::SocketAddr;
use crate::net::{
    LookupSlot, Slots, Waiting, after_acquire, after_release, partitioned, place, preferred,
    preferring, reserved_threads, slot_for,
};

verus! {

proof fn lemma_filtered(
    addresses: Seq<SocketAddr>,
    keep: spec_fn(SocketAddr) -> bool,
    other: spec_fn(SocketAddr) -> bool,
)
    requires
        forall|address: SocketAddr| #[trigger] keep(address) == !other(address),
    ensures
        forall|i: int|
            0 <= i < addresses.filter(keep).len() ==> keep(#[trigger] addresses.filter(keep)[i]),
        addresses.filter(keep).filter(keep) == addresses.filter(keep),
        addresses.filter(keep).filter(other) == Seq::<SocketAddr>::empty(),
    decreases addresses.len(),
{
    reveal(Seq::filter);
    if addresses.len() > 0 {
        let shorter = addresses.drop_last();
        lemma_filtered(shorter, keep, other);
        if keep(addresses.last()) {
            let kept = shorter.filter(keep);
            assert(addresses.filter(keep).drop_last() =~= kept);
        }
    } else {
        assert(addresses.filter(keep) =~= Seq::<SocketAddr>::empty());
    }
}

proof fn lemma_filter_joined(
    left: Seq<SocketAddr>,
    right: Seq<SocketAddr>,
    keep: spec_fn(SocketAddr) -> bool,
)
    ensures
        (left + right).filter(keep) == left.filter(keep) + right.filter(keep),
    decreases right.len(),
{
    reveal(Seq::filter);
    let all = left + right;
    if right.len() == 0 {
        assert(all =~= left);
        assert(left.filter(keep) + right.filter(keep) =~= left.filter(keep));
    } else {
        lemma_filter_joined(left, right.drop_last(), keep);
        assert(all.drop_last() =~= left + right.drop_last());
        assert(all.last() == right.last());
        assert(all.filter(keep) =~= left.filter(keep) + right.filter(keep));
    }
}

/// Every address of the family that is preferred comes before every other, and
/// within each family the order stays as it was.
pub proof fn the_preferred_family_comes_first(addresses: Seq<SocketAddr>, prefer_ipv6: bool)
    ensures
        ({
            let ordered = partitioned(addresses, prefer_ipv6);
            &&& forall|i: int, j: int|
                0 <= i < j < ordered.len() && ((#[trigger] ordered[j]).ip is V6) == prefer_ipv6 ==> (
                (#[trigger] ordered[i]).ip is V6) == prefer_ipv6
            &&& ordered.filter(|address: SocketAddr| (address.ip is V6) == prefer_ipv6)
                == addresses.filter(|address: SocketAddr| (address.ip is V6) == prefer_ipv6)
            &&& ordered.filter(|address: SocketAddr| (address.ip is V6) != prefer_ipv6)
                == addresses.filter(|address: SocketAddr| (address.ip is V6) != prefer_ipv6)
        }),
{
    let first = |address: SocketAddr| preferred(address, prefer_ipv6);
    let second = |address: SocketAddr| !preferred(address, prefer_ipv6);
    let is_first = |address: SocketAddr| (address.ip is V6) == prefer_ipv6;
    let is_second = |address: SocketAddr| (address.ip is V6) != prefer_ipv6;
    assert(forall|address: SocketAddr| #[trigger] first(address) == is_first(address));
    assert(forall|address: SocketAddr| #[trigger] second(address) == is_second(address));
    assert(first =~= is_first);
    assert(second =~= is_second);
    lemma_filtered(addresses, first, second);
    lemma_filtered(addresses, second, first);
    let front = addresses.filter(first);
    let back = addresses.filter(second);
    lemma_filter_joined(front, back, first);
    lemma_filter_joined(front, back, second);
    assert(front + Seq::<SocketAddr>::empty() =~= front);
    assert(Seq::<SocketAddr>::empty() + back =~= back);
    let ordered = partitioned(addresses, prefer_ipv6);
    assert(ordered == front + back);
    assert forall|i: int, j: int|
        0 <= i < j < ordered.len() && ((#[trigger] ordered[j]).ip is V6) == prefer_ipv6 implies ((
    #[trigger] ordered[i]).ip is V6) == prefer_ipv6 by {
        if j >= front.len() {
            assert(second(back[j - front.len()]));
        } else {
            assert(first(front[i]));
        }
    }
}

/// A lookup gets its connection's own slot wherever that is free; else a shared one
/// wherever it has a place in its connection's share, or there is one, and the
/// allowance is not used up; and else none.
pub proof fn who_gets_a_slot(slots: Slots, shared: nat, waiting: Waiting)
    ensures
        slot_for(slots, shared, waiting) == Some(LookupSlot::Reserved) <==> slots.reserved,
        slot_for(slots, shared, waiting) == Some(LookupSlot::Shared) <==> !slots.reserved && (
        slots.burst > 0 || waiting.burst) && shared > 0,
{
}

/// Whatever a lookup takes comes off what is left, once, and giving its slot back
/// puts it back.
pub proof fn slots_are_taken_and_given_back(slots: Slots, shared: nat, waiting: Waiting)
    requires
        slot_for(slots, shared, waiting) is Some,
    ensures
        ({
            let slot = slot_for(slots, shared, waiting)->0;
            let (left, free, kept) = after_acquire(slots, shared, waiting);
            let whole = slots.burst + if waiting.burst {
                1nat
            } else {
                0nat
            };
            &&& !kept.burst
            &&& slot is Reserved ==> !left.reserved && left.burst == whole && free == shared
            &&& slot is Shared ==> left.reserved == slots.reserved && left.burst + 1 == whole && free
                + 1 == shared
            &&& after_release(left, free, slot) == (
                Slots { reserved: slots.reserved, burst: whole },
                shared,
            )
        }),
{
}

/// A lookup that has to wait keeps a place in its connection's share if there is
/// one, and takes nothing else.
pub proof fn waiting_takes_no_more_than_a_place(slots: Slots, shared: nat, waiting: Waiting)
    requires
        slot_for(slots, shared, waiting) is None,
    ensures
        ({
            let (left, free, kept) = after_acquire(slots, shared, waiting);
            &&& free == shared
            &&& left.reserved == slots.reserved
            &&& left.burst + place(kept) == slots.burst + place(waiting)
            &&& kept.burst <==> waiting.burst || slots.burst > 0
        }),
{
}

/// A thread is set aside for every connection up to 1024, and for 1024 where there
/// is no cap.
pub proof fn threads_set_aside(max_connections: u32)
    ensures
        1 <= max_connections <= 1024 ==> reserved_threads(max_connections) == max_connections,
        max_connections == 0 || max_connections > 1024 ==> reserved_threads(max_connections) == 1024,
{
}

/// Without a preference the order stays as it is; with one, the addresses of that
/// family come first, and within each family the order stays as it was.
pub proof fn preferences_order_the_families(
    addresses: Seq<SocketAddr>,
    preference: IpFamilyPreference,
)
    ensures
        ({
            let ordered = preferring(addresses, preference);
            &&& preference is System ==> ordered == addresses
            &&& preference is Ipv4 ==> forall|i: int, j: int|
                0 <= i < j < ordered.len() && (#[trigger] ordered[i]).ip is V6 ==> (
                #[trigger] ordered[j]).ip is V6
            &&& preference is Ipv6 ==> forall|i: int, j: int|
                0 <= i < j < ordered.len() && (#[trigger] ordered[i]).ip is V4 ==> (
                #[trigger] ordered[j]).ip is V4
            &&& ordered.filter(|address: SocketAddr| address.ip is V6) == addresses.filter(
                |address: SocketAddr| address.ip is V6,
            )
            &&& ordered.filter(|address: SocketAddr| !(address.ip is V6)) == addresses.filter(
                |address: SocketAddr| !(address.ip is V6),
            )
        }),
{
    the_preferred_family_comes_first(addresses, true);
    the_preferred_family_comes_first(addresses, false);
    let six = |address: SocketAddr| address.ip is V6;
    let four = |address: SocketAddr| !(address.ip is V6);
    assert(six =~= (|address: SocketAddr| (address.ip is V6) == true));
    assert(six =~= (|address: SocketAddr| (address.ip is V6) != false));
    assert(four =~= (|address: SocketAddr| (address.ip is V6) == false));
    assert(four =~= (|address: SocketAddr| (address.ip is V6) != true));
}

} // verus!
