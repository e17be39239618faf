//! Who loses a slot to whom.

use vstd::prelude::*;

use crate::config::Limits;
use crate::h3::error::{Code, ConnectionError, TransportError, Violation};
use crate::quic::{
    Ended, GatesView, LiveView, Slot, SocketBuffer, Verdict, admitting, descriptors, evicting,
    oldest_stranger, parameters_for, reason_for, warning_for, without,
};

verus! {

/// The connections that have never authenticated, oldest first.
pub open spec fn strangers(slots: Seq<Slot>, gates: GatesView) -> Seq<Slot> {
    slots.filter(|slot: Slot| gates.closed.contains(slot.authenticated.number()))
}

/// The connections that have authenticated, oldest first.
pub open spec fn regulars(slots: Seq<Slot>, gates: GatesView) -> Seq<Slot> {
    slots.filter(|slot: Slot| !gates.closed.contains(slot.authenticated.number()))
}

proof fn lemma_oldest(slots: Seq<Slot>, gates: GatesView)
    ensures
        match oldest_stranger(slots, gates) {
            Some(i) => 0 <= i < slots.len() && strangers(slots, gates).len() > 0 && slots[i]
                == strangers(slots, gates)[0] && strangers(slots.remove(i), gates) == strangers(
                slots,
                gates,
            ).drop_first() && regulars(slots.remove(i), gates) == regulars(slots, gates),
            None => strangers(slots, gates).len() == 0,
        },
    decreases slots.len(),
{
    reveal(Seq::filter);
    if slots.len() > 0 {
        let shorter = slots.drop_last();
        lemma_oldest(shorter, gates);
        match oldest_stranger(shorter, gates) {
            Some(i) => {
                let left = slots.remove(i);
                assert(left.drop_last() =~= shorter.remove(i));
                assert(left.last() == slots.last());
                assert(strangers(left, gates) =~= strangers(slots, gates).drop_first());
            },
            None => {
                if oldest_stranger(slots, gates) is Some {
                    let i = slots.len() - 1;
                    assert(slots.remove(i) =~= shorter);
                    assert(strangers(shorter, gates) =~= Seq::<Slot>::empty());
                    assert(strangers(slots, gates) =~= seq![slots.last()]);
                    assert(strangers(slots, gates).drop_first() =~= Seq::<Slot>::empty());
                }
            },
        }
    }
}

/// Those that lose their slots are the oldest that have never authenticated, oldest
/// first: as many as it takes to leave one slot free, or all of them. Everyone else
/// keeps a slot, and in the order they were in.
pub proof fn the_oldest_strangers_go_first(slots: Seq<Slot>, cap: nat, gates: GatesView)
    requires
        cap > 0,
    ensures
        ({
            let (left, gone) = evicting(slots, cap, gates);
            let needed = if slots.len() < cap {
                0nat
            } else {
                (slots.len() - cap + 1) as nat
            };
            let count = if needed <= strangers(slots, gates).len() {
                needed
            } else {
                strangers(slots, gates).len()
            };
            &&& gone == strangers(slots, gates).subrange(0, count as int)
            &&& strangers(left, gates) == strangers(slots, gates).subrange(
                count as int,
                strangers(slots, gates).len() as int,
            )
            &&& regulars(left, gates) == regulars(slots, gates)
            &&& left.len() + count == slots.len()
        }),
    decreases slots.len(),
{
    lemma_oldest(slots, gates);
    let all = strangers(slots, gates);
    if slots.len() < cap || oldest_stranger(slots, gates) is None {
        assert(all.subrange(0, 0) =~= Seq::<Slot>::empty());
        assert(all.subrange(0, all.len() as int) =~= all);
    } else {
        let i = oldest_stranger(slots, gates)->0;
        let fewer = slots.remove(i);
        the_oldest_strangers_go_first(fewer, cap, gates);
        let later = strangers(fewer, gates);
        let (left, gone) = evicting(fewer, cap, gates);
        let count = gone.len();
        assert(seq![slots[i]] + gone =~= all.subrange(0, count as int + 1));
        assert(later.subrange(count as int, later.len() as int) =~= all.subrange(
            count as int + 1,
            all.len() as int,
        ));
    }
}

/// Eviction leaves those that keep their slots in the order they arrived in.
pub proof fn eviction_keeps_the_order(slots: Seq<Slot>, cap: nat, gates: GatesView)
    requires
        forall|i: int, j: int|
            0 <= i < j < slots.len() ==> (#[trigger] slots[i]).sequence < (
            #[trigger] slots[j]).sequence,
    ensures
        ({
            let left = evicting(slots, cap, gates).0;
            forall|i: int, j: int|
                0 <= i < j < left.len() ==> (#[trigger] left[i]).sequence < (
                #[trigger] left[j]).sequence
        }),
    decreases slots.len(),
{
    if slots.len() >= cap && oldest_stranger(slots, gates) is Some {
        lemma_oldest(slots, gates);
        let at = oldest_stranger(slots, gates)->0;
        let fewer = slots.remove(at);
        assert forall|i: int, j: int| 0 <= i < j < fewer.len() implies (
        #[trigger] fewer[i]).sequence < (#[trigger] fewer[j]).sequence by {
            let from_i = if i < at {
                i
            } else {
                i + 1
            };
            let from_j = if j < at {
                j
            } else {
                j + 1
            };
            assert(slots[from_i].sequence < slots[from_j].sequence);
        }
        eviction_keeps_the_order(fewer, cap, gates);
    }
}

/// Giving up a place takes the connection at it off, and no other.
pub proof fn only_its_own_slot_is_given_up(slots: Seq<Slot>, sequence: u64, slot: Slot)
    ensures
        without(slots, sequence).contains(slot) <==> slots.contains(slot) && slot.sequence
            != sequence,
        (forall|i: int| 0 <= i < slots.len() ==> (#[trigger] slots[i]).sequence != sequence)
            ==> without(slots, sequence) == slots,
    decreases slots.len(),
{
    reveal(Seq::filter);
    let kept = without(slots, sequence);
    if slots.len() > 0 {
        let shorter = slots.drop_last();
        only_its_own_slot_is_given_up(shorter, sequence, slot);
        let before = without(shorter, sequence);
        if slots.last().sequence != sequence {
            assert(kept == before.push(slots.last()));
            if before.contains(slot) {
                let k = choose|k: int| 0 <= k < before.len() && before[k] == slot;
                assert(kept[k] == slot);
            }
            assert(kept[before.len() as int] == slots.last());
            if kept.contains(slot) {
                let k = choose|k: int| 0 <= k < kept.len() && kept[k] == slot;
                if k < before.len() {
                    assert(before[k] == slot);
                } else {
                    assert(slots[slots.len() - 1] == slot);
                }
            }
        }
        if shorter.contains(slot) {
            let k = choose|k: int| 0 <= k < shorter.len() && shorter[k] == slot;
            assert(slots[k] == slot);
        }
        if slots.contains(slot) && !shorter.contains(slot) {
            let k = choose|k: int| 0 <= k < slots.len() && slots[k] == slot;
            if k < shorter.len() {
                assert(shorter[k] == slot);
            }
        }
        if forall|i: int| 0 <= i < slots.len() ==> (#[trigger] slots[i]).sequence != sequence {
            assert forall|i: int| 0 <= i < shorter.len() implies (#[trigger] shorter[i]).sequence
                != sequence by {
                assert(shorter[i] == slots[i]);
            }
            assert(slots[slots.len() - 1].sequence != sequence);
            assert(shorter.push(slots.last()) =~= slots);
        }
    } else {
        assert(kept =~= slots);
    }
}

/// Every tunnel of every connection takes a descriptor, and sixty-four more are
/// needed; without a cap one connection's are counted.
pub proof fn descriptors_are_counted(max_connections: u32, max_targets_per_conn: u32)
    ensures
        max_connections > 0 ==> descriptors(max_connections, max_targets_per_conn)
            == max_connections as nat * max_targets_per_conn as nat + 64,
        descriptors(0, max_targets_per_conn) == max_targets_per_conn + 64,
{
}

/// Below the cap, and without one, everybody is served and nobody loses a slot.
pub proof fn everybody_is_served_below_the_cap(
    slots: Seq<Slot>,
    max_connections: nat,
    validated: bool,
    may_retry: bool,
    gates: GatesView,
)
    requires
        max_connections == 0 || slots.len() < max_connections,
    ensures
        admitting(slots, max_connections, validated, may_retry, gates) == (
            Verdict::Serve,
            slots,
            Seq::<Slot>::empty(),
        ),
{
}

/// At the cap an address that has proved nothing takes nobody's slot: it is asked to
/// prove itself where it can be, and else refused.
pub proof fn unproved_addresses_take_no_slot(
    slots: Seq<Slot>,
    max_connections: nat,
    may_retry: bool,
    gates: GatesView,
)
    requires
        0 < max_connections <= slots.len(),
    ensures
        ({
            let (verdict, left, gone) = admitting(slots, max_connections, false, may_retry, gates);
            &&& left == slots
            &&& gone.len() == 0
            &&& verdict is Retry <==> may_retry
            &&& verdict is Refuse <==> !may_retry
        }),
{
}

proof fn lemma_parted(slots: Seq<Slot>, gates: GatesView)
    ensures
        strangers(slots, gates).len() + regulars(slots, gates).len() == slots.len(),
    decreases slots.len(),
{
    reveal(Seq::filter);
    if slots.len() > 0 {
        lemma_parted(slots.drop_last(), gates);
    }
}

/// At the cap an address that has proved itself is served exactly where fewer than
/// the cap have authenticated, and the oldest that have not make room for it.
pub proof fn proved_addresses_displace_strangers(
    slots: Seq<Slot>,
    max_connections: nat,
    may_retry: bool,
    gates: GatesView,
)
    requires
        0 < max_connections <= slots.len(),
    ensures
        ({
            let (verdict, left, gone) = admitting(slots, max_connections, true, may_retry, gates);
            &&& verdict is Serve <==> regulars(slots, gates).len() < max_connections
            &&& verdict is Refuse <==> regulars(slots, gates).len() >= max_connections
            &&& verdict is Serve ==> left.len() + 1 == max_connections && gone == strangers(
                slots,
                gates,
            ).subrange(0, slots.len() - max_connections + 1)
            &&& verdict is Refuse ==> gone == strangers(slots, gates)
            &&& regulars(left, gates) == regulars(slots, gates)
        }),
{
    the_oldest_strangers_go_first(slots, max_connections, gates);
    lemma_parted(slots, gates);
    let (left, gone) = evicting(slots, max_connections, gates);
    lemma_parted(left, gates);
    let all = strangers(slots, gates);
    assert(all.subrange(0, all.len() as int) =~= all);
}

/// A reload replaces everything a connection runs on, and once the shutdown has
/// started it replaces nothing: a closed listener stays closed.
pub proof fn reloads_are_whole_and_end_with_the_shutdown(live: LiveView, generation: u64)
    ensures
        !live.fired ==> live.reloading(generation).config == generation && live.reloading(
            generation,
        ).gate == generation && live.reloading(generation).transport == Some(generation)
            && !live.reloading(generation).fired,
        live.firing().fired,
        live.firing().config == live.config && live.firing().gate == live.gate
            && live.firing().transport == live.transport,
        live.firing().reloading(generation) == live.firing(),
        live.firing().draining().transport is None,
        live.firing().draining().fired,
        live.firing().draining().reloading(generation).transport is None,
        live.draining().config == live.config && live.draining().gate == live.gate,
{
}

/// A connection starts with the request streams that are configured, sixteen at
/// most, and its timeouts, sizes and controller are those that are configured. A
/// keep-alive of zero is none, and no larger packets are looked for unless they are
/// to be.
pub proof fn limits_reach_the_transport(limits: Limits)
    ensures
        ({
            let parameters = parameters_for(limits);
            &&& parameters.max_concurrent_bidi_streams <= limits.max_streams_bidi
            &&& parameters.max_concurrent_bidi_streams <= 16
            &&& parameters.max_concurrent_bidi_streams == limits.max_streams_bidi
                || parameters.max_concurrent_bidi_streams == 16
            &&& parameters.max_concurrent_uni_streams == 16
            &&& parameters.receive_window == 16777216
            &&& parameters.stream_receive_window == 2097152
            &&& parameters.send_window == 10000000
            &&& parameters.datagram_receive_buffer_size == 1250000
            &&& parameters.crypto_buffer_size == 16384
            &&& parameters.max_idle_timeout_ms == limits.max_idle_timeout_ms
            &&& parameters.initial_rtt_ms == limits.initial_rtt_ms
            &&& parameters.initial_mtu == limits.initial_mtu
            &&& parameters.congestion_control == limits.congestion_control
            &&& parameters.keep_alive_interval_ms is None <==> limits.keep_alive_interval_ms == 0
            &&& parameters.keep_alive_interval_ms matches Some(interval) ==> interval
                == limits.keep_alive_interval_ms
            &&& parameters.mtu_upper_bound is Some <==> limits.mtu_discovery
            &&& parameters.mtu_upper_bound matches Some(bound) ==> bound == limits.mtu_upper_bound
        }),
{
}

/// A connection that was evicted or ran to its end closes as that, one that went
/// silent or said goodbye as that, and only one that failed closes with an error.
pub proof fn only_failures_close_with_an_error(code: Code, violation: Violation, error: TransportError)
    ensures
        reason_for(Ended::Evicted) == Some("evicted"@),
        reason_for(Ended::Handled(Ok(()))) == Some("drained"@),
        reason_for(Ended::Handled(Err(ConnectionError::Timeout))) == Some("idle"@),
        reason_for(Ended::Handled(Err(ConnectionError::ApplicationClose { code }))) == if code.number()
            == 0 || code.number() == 0x100 {
            Some("peer_close"@)
        } else {
            None
        },
        reason_for(Ended::Handled(Err(ConnectionError::Local(violation)))) == if violation@.code.number()
            == 0x100 {
            Some("idle"@)
        } else {
            None
        },
        reason_for(Ended::Handled(Err(ConnectionError::Transport(error)))) is None,
{
}

/// Something is warned of exactly where a buffer was asked for and the kernel refused
/// it or granted less, and it names the setting that asked and the host's ceiling.
pub proof fn short_buffers_are_warned_of(
    which: SocketBuffer,
    requested: usize,
    refused: bool,
    granted: Option<usize>,
)
    ensures
        warning_for(which, requested, refused, granted) is Some <==> requested > 0 && (refused || (
        granted is Some && granted->0 < requested)),
        requested > 0 && refused ==> warning_for(which, requested, refused, granted) == Some(
            which.refusal(),
        ),
        requested > 0 && !refused && granted is Some && granted->0 < requested ==> warning_for(
            which,
            requested,
            refused,
            granted,
        ) == Some(which.shortage()),
{
}

} // verus!
