use volto::config::{IpFamilyPreference, DEFAULT_MAX_CONNECTIONS};
use volto::ip::{IpAddr, SocketAddr};
use volto::net::{
    bind_address, blocking_pool_size, prefer_family, resolved, ConnectionResolver, LookupSlot,
    ResolverBudget, Waiting, BURST_LOOKUPS, LOOKUP_FREE_THREADS, RESERVED_LOOKUP_CEILING,
    SHARED_LOOKUPS,
};

/// Reads an address literal.
fn ip(text: &str) -> IpAddr {
    if text.contains(':') {
        IpAddr::V6(v6(text))
    } else {
        IpAddr::V4(v4(text))
    }
}

fn v4(text: &str) -> [u8; 4] {
    let octets: Vec<u8> = text
        .split('.')
        .map(|octet| octet.parse().expect("an octet"))
        .collect();
    octets.try_into().expect("four octets")
}

fn v6(text: &str) -> [u8; 16] {
    let octets = |half: &str| -> Vec<u8> {
        if half.is_empty() {
            return Vec::new();
        }
        half.split(':')
            .flat_map(|part| {
                if part.contains('.') {
                    v4(part).to_vec()
                } else {
                    u16::from_str_radix(part, 16)
                        .expect("a segment")
                        .to_be_bytes()
                        .to_vec()
                }
            })
            .collect()
    };
    let bytes = match text.split_once("::") {
        Some((left, right)) => {
            let (head, tail) = (octets(left), octets(right));
            let gap = vec![0; 16 - head.len() - tail.len()];
            [head, gap, tail].concat()
        }
        None => octets(text),
    };
    bytes.try_into().expect("sixteen octets")
}

/// Reads an address and a port.
fn socket(text: &str) -> SocketAddr {
    let (host, port) = text.rsplit_once(':').expect("a port");
    SocketAddr {
        ip: ip(host.trim_start_matches('[').trim_end_matches(']')),
        port: port.parse().expect("a port number"),
        flowinfo: 0,
        scope_id: 0,
    }
}

/// Asks for a slot once, and keeps nothing where there is none.
fn ready(resolver: &mut ConnectionResolver, budget: &mut ResolverBudget) -> Option<LookupSlot> {
    let mut waiting = Waiting::new();
    let slot = resolver.acquire(budget, &mut waiting);
    if slot.is_none() {
        resolver.give_up(waiting);
    }
    slot
}

/// Holds `count` lookup slots on `resolver`, asserting it could.
fn hold(
    resolver: &mut ConnectionResolver,
    budget: &mut ResolverBudget,
    count: usize,
) -> Vec<LookupSlot> {
    (0..count)
        .map(|held| {
            ready(resolver, budget)
                .unwrap_or_else(|| panic!("slot {held} of {count} was refused"))
        })
        .collect()
}

/// A budget whose shared allowance is held by connections that never let go.
fn drained() -> ResolverBudget {
    let mut budget = ResolverBudget::new();
    for _ in 0..SHARED_LOOKUPS.div_ceil(BURST_LOOKUPS) {
        let mut hostile = budget.per_connection();
        hold(&mut hostile, &mut budget, BURST_LOOKUPS + 1);
    }
    assert_eq!(
        budget.available_permits(),
        0,
        "the shared allowance was not actually exhausted"
    );
    budget
}

#[test]
fn a_connection_may_hold_its_reserved_slot_plus_a_burst() {
    let mut budget = ResolverBudget::new();
    let mut resolver = budget.per_connection();

    hold(&mut resolver, &mut budget, BURST_LOOKUPS + 1);

    assert!(
        ready(&mut resolver, &mut budget).is_none(),
        "a connection took more than its reserved slot and {BURST_LOOKUPS} burst"
    );
}

/// The guarantee: no number of hostile connections can starve a new one.
#[test]
fn a_new_connection_still_has_a_slot_when_the_shared_allowance_is_gone() {
    let mut budget = drained();

    let mut victim = budget.per_connection();
    let slot = ready(&mut victim, &mut budget);
    assert!(slot.is_some(), "a fresh connection was left with no slot");

    // And exactly one: the guarantee is progress, not parallelism.
    assert!(
        ready(&mut victim, &mut budget).is_none(),
        "the reserved slot was not the only thing left"
    );
}

/// A lookup parked on the shared queue takes the reserved slot when it frees.
#[test]
fn a_parked_lookup_takes_the_reserved_slot_when_it_frees() {
    let mut budget = drained();

    let mut victim = budget.per_connection();
    let first = ready(&mut victim, &mut budget).expect("the reserved slot starts free");

    let mut second = Waiting::new();
    assert!(
        victim.acquire(&mut budget, &mut second).is_none(),
        "a second lookup had a slot with the allowance gone and the reserved slot held"
    );

    victim.release(&mut budget, first);
    assert!(
        victim.acquire(&mut budget, &mut second).is_some(),
        "a parked lookup did not take the reserved slot its own connection freed"
    );
    assert_eq!(
        victim.available_burst(),
        BURST_LOOKUPS,
        "a lookup on the reserved slot keeps none of the share"
    );
}

#[test]
fn a_finished_lookup_gives_its_slot_back() {
    let mut budget = ResolverBudget::new();
    let mut resolver = budget.per_connection();

    let held = hold(&mut resolver, &mut budget, BURST_LOOKUPS + 1);
    let shared_before = budget.available_permits();
    for slot in held {
        resolver.release(&mut budget, slot);
    }

    assert_eq!(
        budget.available_permits(),
        shared_before + BURST_LOOKUPS,
        "the shared allowance did not come back"
    );
    assert!(
        ready(&mut resolver, &mut budget).is_some(),
        "the connection could not resolve again after its lookups finished"
    );
}

/// A whole connection's worth of lookups giving up at once leaves the budget
/// exactly as it found it.
#[test]
fn lookups_that_all_give_up_at_once_give_back_everything_they_held() {
    // The shared allowance gone, the way an attack leaves it.
    let mut budget = drained();

    let mut victim = budget.per_connection();
    // The reserved slot is taken, so everything below has to queue.
    let reserved = ready(&mut victim, &mut budget).expect("the reserved slot starts free");
    assert_eq!(victim.available_burst(), BURST_LOOKUPS);

    let mut parked: Vec<Waiting> = (0..BURST_LOOKUPS).map(|_| Waiting::new()).collect();
    for (nth, lookup) in parked.iter_mut().enumerate() {
        assert!(
            victim.acquire(&mut budget, lookup).is_none(),
            "lookup {nth} had a slot with the allowance gone and the reserved slot held"
        );
    }
    assert_eq!(
        victim.available_burst(),
        0,
        "a parked lookup is meant to be holding its burst permit while it queues"
    );

    // Every one of them gives up in the same instant.
    for lookup in parked {
        victim.give_up(lookup);
    }

    assert_eq!(
        victim.available_burst(),
        BURST_LOOKUPS,
        "burst permits were left behind by lookups that gave up"
    );
    assert_eq!(
        budget.available_permits(),
        0,
        "a lookup that never reached the shared allowance disturbed it"
    );

    // And the reserved slot is still this connection's own, taken by the next
    // lookup the moment the one holding it finishes.
    victim.release(&mut budget, reserved);
    assert!(
        ready(&mut victim, &mut budget).is_some(),
        "the reserved slot did not come back after a mass expiry"
    );
}

/// The pool has a thread for every slot the budget can hand out.
#[test]
fn the_pool_covers_every_slot_the_budget_can_hand_out() {
    for max_connections in [1, 16, DEFAULT_MAX_CONNECTIONS, 4096] {
        let reserved = (max_connections as usize).min(RESERVED_LOOKUP_CEILING);

        assert!(
            blocking_pool_size(max_connections) >= reserved + SHARED_LOOKUPS,
            "max_connections = {max_connections}"
        );
        assert_eq!(
            blocking_pool_size(max_connections) - reserved - SHARED_LOOKUPS,
            LOOKUP_FREE_THREADS,
            "max_connections = {max_connections}"
        );
    }

    // `max_connections = 0` is "no cap", so there is nothing to size
    // against and the ceiling is the answer.
    assert_eq!(
        blocking_pool_size(0),
        blocking_pool_size(u32::MAX),
        "an uncapped server is sized like one at the ceiling"
    );
}

/// Two of each family, interleaved, so both the partition and its stability
/// are visible in one list.
fn mixed() -> Vec<SocketAddr> {
    vec![
        socket("[2001:db8::1]:443"),
        socket("192.0.2.1:443"),
        socket("[2001:db8::2]:443"),
        socket("192.0.2.2:443"),
    ]
}

#[test]
fn the_default_preference_puts_ipv4_first() {
    let mut addresses = mixed();
    prefer_family(&mut addresses, IpFamilyPreference::Ipv4);
    assert_eq!(
        addresses,
        vec![
            socket("192.0.2.1:443"),
            socket("192.0.2.2:443"),
            socket("[2001:db8::1]:443"),
            socket("[2001:db8::2]:443"),
        ]
    );
}

#[test]
fn the_ipv6_preference_puts_ipv6_first() {
    let mut addresses = mixed();
    prefer_family(&mut addresses, IpFamilyPreference::Ipv6);
    assert_eq!(
        addresses,
        vec![
            socket("[2001:db8::1]:443"),
            socket("[2001:db8::2]:443"),
            socket("192.0.2.1:443"),
            socket("192.0.2.2:443"),
        ]
    );
}

#[test]
fn the_system_preference_leaves_the_resolver_order_alone() {
    let mut addresses = mixed();
    prefer_family(&mut addresses, IpFamilyPreference::System);
    assert_eq!(addresses, mixed(), "the resolver's order is the answer");
}

/// The property that makes this a partition and not a sort: RFC 6724 still
/// decides the order *within* a family, so an unstable sort would silently
/// throw away the resolver's tie-breaking.
#[test]
fn ordering_within_a_family_is_preserved() {
    for preference in [IpFamilyPreference::Ipv4, IpFamilyPreference::Ipv6] {
        let mut addresses = vec![
            socket("192.0.2.9:443"),
            socket("[2001:db8::9]:443"),
            socket("192.0.2.1:443"),
            socket("[2001:db8::1]:443"),
            socket("192.0.2.5:443"),
        ];
        prefer_family(&mut addresses, preference);

        let v4: Vec<SocketAddr> = addresses.iter().copied().filter(|a| !a.ip.is_ipv6()).collect();
        let v6: Vec<SocketAddr> = addresses.iter().copied().filter(|a| a.ip.is_ipv6()).collect();
        assert_eq!(
            v4,
            vec![
                socket("192.0.2.9:443"),
                socket("192.0.2.1:443"),
                socket("192.0.2.5:443"),
            ],
            "{preference:?}"
        );
        assert_eq!(
            v6,
            vec![
                socket("[2001:db8::9]:443"),
                socket("[2001:db8::1]:443"),
            ],
            "{preference:?}"
        );
    }
}

/// The two shapes that arrive most often: an IP literal, which resolves to
/// one address, and a name with only one family behind it.
#[test]
fn single_family_and_empty_lists_are_untouched() {
    for preference in [
        IpFamilyPreference::Ipv4,
        IpFamilyPreference::Ipv6,
        IpFamilyPreference::System,
    ] {
        let mut empty: Vec<SocketAddr> = Vec::new();
        prefer_family(&mut empty, preference);
        assert!(empty.is_empty(), "{preference:?}");

        let only_v4: Vec<SocketAddr> = vec![
            socket("192.0.2.1:443"),
            socket("192.0.2.2:443"),
        ];
        let mut addresses = only_v4.clone();
        prefer_family(&mut addresses, preference);
        assert_eq!(addresses, only_v4, "{preference:?}");

        let only_v6: Vec<SocketAddr> = vec![
            socket("[2001:db8::1]:443"),
            socket("[2001:db8::2]:443"),
        ];
        let mut addresses = only_v6.clone();
        prefer_family(&mut addresses, preference);
        assert_eq!(addresses, only_v6, "{preference:?}");
    }
}

/// A name without addresses is not found, and a socket is bound in its target's
/// family.
#[test]
fn answers_and_sockets_follow_their_target() {
    assert_eq!(
        resolved("example.com", Vec::new()).unwrap_err(),
        "example.com resolved to no addresses"
    );
    assert_eq!(resolved("example.com", mixed()).unwrap(), mixed());

    assert_eq!(bind_address(&socket("192.0.2.1:443")), socket("0.0.0.0:0"));
    assert_eq!(bind_address(&socket("[2001:db8::1]:443")), socket("[::]:0"));
}
