//! Name lookups and sockets: the order addresses are tried in, and how many
//! lookups may run at once.
//!
//! A lookup occupies a thread until the system's resolver answers, and nothing
//! cancels it. So lookups are rationed: every connection has one slot of its own
//! that no other can take, and a bounded share of an allowance that all of them
//! draw on.

use vstd::prelude::*;
use vstd::string::StringExecFns;

use crate::config::IpFamilyPreference;
use crate::ip::{IpAddr, SocketAddr};

verus! {

/// Lookups the whole server may have in flight beyond the one that every
/// connection keeps in reserve.
pub const SHARED_LOOKUPS: usize = 128;

/// Lookups one connection may take from the shared allowance at once.
pub const BURST_LOOKUPS: usize = 32;

/// Threads that are kept clear of name lookups.
pub const LOOKUP_FREE_THREADS: usize = 64;

/// Connections that a thread is set aside for.
pub const RESERVED_LOOKUP_CEILING: usize = 1024;

/// Whether an address is of the family that is tried first.
pub open spec fn preferred(address: SocketAddr, prefer_ipv6: bool) -> bool {
    (address.ip is V6) == prefer_ipv6
}

/// The preferred addresses in their order, then the others in theirs.
pub open spec fn partitioned(addresses: Seq<SocketAddr>, prefer_ipv6: bool) -> Seq<SocketAddr> {
    addresses.filter(|address: SocketAddr| preferred(address, prefer_ipv6)) + addresses.filter(
        |address: SocketAddr| !preferred(address, prefer_ipv6),
    )
}

/// The addresses in the order a preference puts them in.
pub open spec fn preferring(
    addresses: Seq<SocketAddr>,
    preference: IpFamilyPreference,
) -> Seq<SocketAddr> {
    match preference {
        IpFamilyPreference::System => addresses,
        IpFamilyPreference::Ipv4 => partitioned(addresses, false),
        IpFamilyPreference::Ipv6 => partitioned(addresses, true),
    }
}

/// Reorders addresses so that the preferred family comes first.
///
/// Within a family the resolver's own order stands, and without a preference it
/// stands altogether.
pub fn prefer_family(addresses: &mut Vec<SocketAddr>, preference: IpFamilyPreference)
    ensures
        final(addresses)@ == preferring(old(addresses)@, preference),
        final(addresses)@ == match preference {
            IpFamilyPreference::System => old(addresses)@,
            IpFamilyPreference::Ipv4 => partitioned(old(addresses)@, false),
            IpFamilyPreference::Ipv6 => partitioned(old(addresses)@, true),
        },
{
    let prefer_ipv6: bool = match preference {
        IpFamilyPreference::System => {
            return ;
        },
        IpFamilyPreference::Ipv4 => false,
        IpFamilyPreference::Ipv6 => true,
    };
    let ghost all = addresses@;
    let ghost first = |address: SocketAddr| preferred(address, prefer_ipv6);
    let ghost second = |address: SocketAddr| !preferred(address, prefer_ipv6);
    let mut front: Vec<SocketAddr> = Vec::new();
    let mut back: Vec<SocketAddr> = Vec::new();
    let mut at: usize = 0;
    proof {
        reveal(Seq::filter);
        assert(all.subrange(0, 0) =~= Seq::<SocketAddr>::empty());
    }
    while at < addresses.len()
        invariant
            at <= addresses.len(),
            addresses@ == all,
            first == (|address: SocketAddr| preferred(address, prefer_ipv6)),
            second == (|address: SocketAddr| !preferred(address, prefer_ipv6)),
            front@ == all.subrange(0, at as int).filter(first),
            back@ == all.subrange(0, at as int).filter(second),
        decreases addresses.len() - at,
    {
        let address: SocketAddr = addresses[at];
        proof {
            reveal(Seq::filter);
            let longer = all.subrange(0, at as int + 1);
            assert(longer.drop_last() =~= all.subrange(0, at as int));
            assert(longer.last() == address);
        }
        if address.ip.is_ipv6() == prefer_ipv6 {
            front.push(address);
        } else {
            back.push(address);
        }
        at = at + 1;
    }
    assert(all.subrange(0, at as int) =~= all);
    front.append(&mut back);
    *addresses = front;
}

/// What a resolver's answer comes to: a name without addresses is not found.
pub fn resolved(host: &str, addresses: Vec<SocketAddr>) -> (result: Result<
    Vec<SocketAddr>,
    String,
>)
    ensures
        match result {
            Ok(found) => addresses@.len() > 0 && found == addresses,
            Err(text) => addresses@.len() == 0 && text@ == host@ + " resolved to no addresses"@,
        },
{
    if addresses.len() == 0 {
        let mut text = host.to_owned();
        text.append(" resolved to no addresses");
        return Err(text);
    }
    Ok(addresses)
}

/// The address a socket for `target` is bound to: any of the same family, and any
/// port.
pub fn bind_address(target: &SocketAddr) -> (bind: SocketAddr)
    ensures
        bind.port == 0,
        bind.flowinfo == 0,
        bind.scope_id == 0,
        match (target.ip, bind.ip) {
            (IpAddr::V4(_), IpAddr::V4(octets)) => octets@ == seq![0u8, 0u8, 0u8, 0u8],
            (IpAddr::V6(_), IpAddr::V6(octets)) => forall|i: int|
                0 <= i < 16 ==> octets@[i] == 0,
            _ => false,
        },
{
    let ip: IpAddr = match target.ip {
        IpAddr::V4(_) => {
            let octets: [u8; 4] = [0, 0, 0, 0];
            assert(octets@ =~= seq![0u8, 0u8, 0u8, 0u8]);
            IpAddr::V4(octets)
        },
        IpAddr::V6(_) => IpAddr::V6([0u8; 16]),
    };
    SocketAddr { ip, port: 0, flowinfo: 0, scope_id: 0 }
}

/// Connections that a thread is set aside for: all of them, up to the ceiling. No
/// cap on connections, which zero stands for, counts as the ceiling.
pub open spec fn reserved_threads(max_connections: u32) -> nat {
    if max_connections == 0 || max_connections > RESERVED_LOOKUP_CEILING {
        RESERVED_LOOKUP_CEILING as nat
    } else {
        max_connections as nat
    }
}

/// The threads that name lookups need: one for every connection up to the
/// ceiling, one for each lookup of the shared allowance, and some to spare.
///
/// No cap on connections, which zero stands for, is sized like the ceiling.
pub fn blocking_pool_size(max_connections: u32) -> (threads: usize)
    ensures
        threads == reserved_threads(max_connections) + SHARED_LOOKUPS + LOOKUP_FREE_THREADS,
{
    let reserved: usize = if max_connections == 0 || max_connections as u64
        > RESERVED_LOOKUP_CEILING as u64 {
        RESERVED_LOOKUP_CEILING
    } else {
        max_connections as usize
    };
    reserved + SHARED_LOOKUPS + LOOKUP_FREE_THREADS
}

/// The allowance that every connection's lookups draw on.
#[derive(Debug)]
pub struct ResolverBudget {
    available: usize,
}

impl View for ResolverBudget {
    type V = nat;

    closed spec fn view(&self) -> nat {
        self.available as nat
    }
}

impl Default for ResolverBudget {
    fn default() -> (budget: ResolverBudget)
        ensures
            budget@ == SHARED_LOOKUPS,
    {
        ResolverBudget::new()
    }
}

impl ResolverBudget {
    /// The budget of one server.
    pub fn new() -> (budget: ResolverBudget)
        ensures
            budget@ == SHARED_LOOKUPS,
    {
        ResolverBudget { available: SHARED_LOOKUPS }
    }

    /// One connection's view of it.
    pub fn per_connection(&self) -> (resolver: ConnectionResolver)
        ensures
            resolver@ == (Slots { reserved: true, burst: BURST_LOOKUPS as nat }),
    {
        ConnectionResolver { reserved: true, burst: BURST_LOOKUPS }
    }

    /// How much of the allowance is free.
    pub fn available_permits(&self) -> (free: usize)
        ensures
            free == self@,
    {
        self.available
    }
}

/// What one connection may still take.
pub struct Slots {
    /// Whether its own slot is free.
    pub reserved: bool,
    /// How much of its share of the allowance is free.
    pub burst: nat,
}

/// A lookup's claim on a thread.
#[derive(Debug, Clone, Copy, PartialEq, Eq, Structural)]
pub enum LookupSlot {
    /// The connection's own slot.
    Reserved,
    /// One of the connection's share, and one of the shared allowance.
    Shared,
}

/// A lookup that waits for a slot.
///
/// It keeps its place in the connection's share while it waits for the shared
/// allowance, and it never stops waiting for the connection's own slot.
#[derive(Debug, Clone, Copy, PartialEq, Eq, Structural)]
pub struct Waiting {
    /// Whether it holds one of the connection's share.
    pub burst: bool,
}

impl Waiting {
    /// A lookup that has just arrived.
    pub fn new() -> (waiting: Waiting)
        ensures
            !waiting.burst,
    {
        Waiting { burst: false }
    }
}

/// What one connection may ask the resolver to do at once.
#[derive(Debug)]
pub struct ConnectionResolver {
    reserved: bool,
    burst: usize,
}

impl View for ConnectionResolver {
    type V = Slots;

    closed spec fn view(&self) -> Slots {
        Slots { reserved: self.reserved, burst: self.burst as nat }
    }
}

/// One if a lookup holds a place in its connection's share.
pub open spec fn place(waiting: Waiting) -> nat {
    if waiting.burst {
        1
    } else {
        0
    }
}

/// The slot a waiting lookup gets now, if it gets one: the connection's own
/// before a share of the allowance.
pub open spec fn slot_for(slots: Slots, shared: nat, waiting: Waiting) -> Option<LookupSlot> {
    if slots.reserved {
        Some(LookupSlot::Reserved)
    } else if slots.burst + place(waiting) > 0 && shared > 0 {
        Some(LookupSlot::Shared)
    } else {
        None
    }
}

/// What is left to the connection and to everyone once a lookup has asked for a
/// slot, and what the lookup keeps if it waits on.
pub open spec fn after_acquire(slots: Slots, shared: nat, waiting: Waiting) -> (Slots, nat, Waiting) {
    match slot_for(slots, shared, waiting) {
        Some(LookupSlot::Reserved) => (
            Slots { reserved: false, burst: slots.burst + place(waiting) },
            shared,
            Waiting { burst: false },
        ),
        Some(LookupSlot::Shared) => (
            Slots { burst: (slots.burst + place(waiting) - 1) as nat, ..slots },
            (shared - 1) as nat,
            Waiting { burst: false },
        ),
        None => {
            let kept = Waiting { burst: waiting.burst || slots.burst > 0 };
            (
                Slots { burst: (slots.burst + place(waiting) - place(kept)) as nat, ..slots },
                shared,
                kept,
            )
        },
    }
}

/// What is left to the connection once a waiting lookup has given up.
pub open spec fn after_giving_up(slots: Slots, waiting: Waiting) -> Slots {
    Slots { burst: slots.burst + place(waiting), ..slots }
}

/// What is left to the connection and to everyone once a lookup has finished.
pub open spec fn after_release(slots: Slots, shared: nat, slot: LookupSlot) -> (Slots, nat) {
    match slot {
        LookupSlot::Reserved => (Slots { reserved: true, ..slots }, shared),
        LookupSlot::Shared => (Slots { burst: slots.burst + 1, ..slots }, shared + 1),
    }
}

impl ConnectionResolver {
    /// Takes this connection's own slot or a share of the allowance, whichever is
    /// free, or leaves the lookup waiting.
    ///
    /// The connection's share is taken before the shared allowance, so a
    /// connection at its limit waits for itself and not for the server. A lookup
    /// that gets the connection's own slot gives back what it held of the share.
    pub fn acquire(&mut self, budget: &mut ResolverBudget, waiting: &mut Waiting) -> (slot: Option<
        LookupSlot,
    >)
        requires
            old(self)@.burst + place(*old(waiting)) <= BURST_LOOKUPS,
        ensures
            slot == slot_for(old(self)@, old(budget)@, *old(waiting)),
            (final(self)@, final(budget)@, *final(waiting)) == after_acquire(
                old(self)@,
                old(budget)@,
                *old(waiting),
            ),
    {
        if self.reserved {
            self.reserved = false;
            if waiting.burst {
                self.burst = self.burst + 1;
                waiting.burst = false;
            }
            return Some(LookupSlot::Reserved);
        }
        if !waiting.burst {
            if self.burst == 0 {
                return None;
            }
            self.burst = self.burst - 1;
            waiting.burst = true;
        }
        if budget.available == 0 {
            return None;
        }
        budget.available = budget.available - 1;
        waiting.burst = false;
        Some(LookupSlot::Shared)
    }

    /// Gives up a lookup that never got a slot: it keeps nothing.
    pub fn give_up(&mut self, waiting: Waiting)
        requires
            old(self)@.burst + place(waiting) <= BURST_LOOKUPS,
        ensures
            final(self)@ == after_giving_up(old(self)@, waiting),
    {
        if waiting.burst {
            self.burst = self.burst + 1;
        }
    }

    /// Gives back the slot of a lookup that has finished.
    pub fn release(&mut self, budget: &mut ResolverBudget, slot: LookupSlot)
        requires
            slot is Shared ==> old(self)@.burst < BURST_LOOKUPS && old(budget)@ < SHARED_LOOKUPS,
        ensures
            (final(self)@, final(budget)@) == after_release(old(self)@, old(budget)@, slot),
    {
        match slot {
            LookupSlot::Reserved => {
                self.reserved = true;
            },
            LookupSlot::Shared => {
                self.burst = self.burst + 1;
                budget.available = budget.available + 1;
            },
        }
    }

    /// How much of the connection's share is free.
    pub fn available_burst(&self) -> (free: usize)
        ensures
            free == self@.burst,
    {
        self.burst
    }
}

// ---------------------------------------------------------------------------
// Laws
// ---------------------------------------------------------------------------

/// A connection whose own slot is free always gets one, whatever the others have
/// taken.
pub proof fn no_connection_is_starved(slots: Slots, shared: nat, waiting: Waiting)
    requires
        slots.reserved,
    ensures
        slot_for(slots, shared, waiting) == Some(LookupSlot::Reserved),
{
}

/// A lookup that waits takes its connection's own slot as soon as that is free,
/// even while the shared allowance is gone.
pub proof fn a_waiting_lookup_takes_the_freed_slot(slots: Slots, waiting: Waiting)
    requires
        slot_for(slots, 0, waiting) is None,
    ensures
        slot_for(Slots { reserved: true, ..slots }, 0, waiting) == Some(LookupSlot::Reserved),
{
}

/// One connection's lookups, as they are at a moment.
pub struct Ledger {
    /// What the connection may still take.
    pub slots: Slots,
    /// Lookups that wait with a place in the connection's share.
    pub waiting: nat,
    /// Lookups that run on the connection's own slot.
    pub reserved: nat,
    /// Lookups that run on the shared allowance.
    pub shared: nat,
}

impl Ledger {
    /// A connection that has looked nothing up.
    pub open spec fn fresh() -> Ledger {
        Ledger {
            slots: Slots { reserved: true, burst: BURST_LOOKUPS as nat },
            waiting: 0,
            reserved: 0,
            shared: 0,
        }
    }

    /// Whether what is free and what is taken make up the connection's share, and
    /// its own slot is either free or taken once.
    pub open spec fn balanced(self) -> bool {
        &&& self.slots.burst + self.waiting + self.shared == BURST_LOOKUPS
        &&& self.reserved == if self.slots.reserved {
            0nat
        } else {
            1nat
        }
    }
}

/// Every connection's lookups, and what is free of the shared allowance.
pub struct Books {
    /// What is free of the allowance.
    pub free: nat,
    /// The connections.
    pub connections: Seq<Ledger>,
}

/// The lookups of these connections that run on the shared allowance.
pub open spec fn sharing(connections: Seq<Ledger>) -> nat
    decreases connections.len(),
{
    if connections.len() == 0 {
        0
    } else {
        sharing(connections.drop_last()) + connections.last().shared
    }
}

/// The lookups of these connections that run.
pub open spec fn running(connections: Seq<Ledger>) -> nat
    decreases connections.len(),
{
    if connections.len() == 0 {
        0
    } else {
        running(connections.drop_last()) + connections.last().shared + connections.last().reserved
    }
}

impl Books {
    /// Whether every connection's ledger balances, and the allowance is what is
    /// free of it and what they have taken.
    pub open spec fn balanced(self) -> bool {
        &&& forall|i: int|
            0 <= i < self.connections.len() ==> (#[trigger] self.connections[i]).balanced()
        &&& self.free + sharing(self.connections) == SHARED_LOOKUPS
    }
}

/// What happens to a server's lookups.
pub enum Event {
    /// A connection arrives.
    Arrives,
    /// A connection's lookup asks for a slot, for the first time or again.
    Asks(int, Waiting),
    /// A connection's waiting lookup gives up.
    GivesUp(int, Waiting),
    /// A connection's lookup finishes.
    Finishes(int, LookupSlot),
}

impl Event {
    /// Whether it can happen: the connection is there, and it has the lookup that
    /// the event speaks of.
    pub open spec fn can_happen(self, books: Books) -> bool {
        match self {
            Event::Arrives => true,
            Event::Asks(i, waiting) => 0 <= i < books.connections.len() && place(waiting)
                <= books.connections[i].waiting,
            Event::GivesUp(i, waiting) => 0 <= i < books.connections.len() && place(waiting)
                <= books.connections[i].waiting,
            Event::Finishes(i, LookupSlot::Reserved) => 0 <= i < books.connections.len()
                && books.connections[i].reserved > 0,
            Event::Finishes(i, LookupSlot::Shared) => 0 <= i < books.connections.len()
                && books.connections[i].shared > 0,
        }
    }

    /// The books after it.
    pub open spec fn applied(self, books: Books) -> Books {
        match self {
            Event::Arrives => Books {
                connections: books.connections.push(Ledger::fresh()),
                ..books
            },
            Event::Asks(i, waiting) => {
                let ledger = books.connections[i];
                let slot = slot_for(ledger.slots, books.free, waiting);
                let (slots, free, kept) = after_acquire(ledger.slots, books.free, waiting);
                let later = Ledger {
                    slots,
                    waiting: (ledger.waiting - place(waiting) + place(kept)) as nat,
                    reserved: ledger.reserved + if slot == Some(LookupSlot::Reserved) {
                        1nat
                    } else {
                        0nat
                    },
                    shared: ledger.shared + if slot == Some(LookupSlot::Shared) {
                        1nat
                    } else {
                        0nat
                    },
                };
                Books { free, connections: books.connections.update(i, later) }
            },
            Event::GivesUp(i, waiting) => {
                let ledger = books.connections[i];
                let later = Ledger {
                    slots: after_giving_up(ledger.slots, waiting),
                    waiting: (ledger.waiting - place(waiting)) as nat,
                    ..ledger
                };
                Books { connections: books.connections.update(i, later), ..books }
            },
            Event::Finishes(i, slot) => {
                let ledger = books.connections[i];
                let (slots, free) = after_release(ledger.slots, books.free, slot);
                let later = match slot {
                    LookupSlot::Reserved => Ledger {
                        slots,
                        reserved: (ledger.reserved - 1) as nat,
                        ..ledger
                    },
                    LookupSlot::Shared => Ledger {
                        slots,
                        shared: (ledger.shared - 1) as nat,
                        ..ledger
                    },
                };
                Books { free, connections: books.connections.update(i, later) }
            },
        }
    }
}

/// Nothing that can happen to a server's lookups makes a slot or loses one: the
/// books balance before and after, and what an event asks of the connection's
/// resolver is there.
pub proof fn the_books_stay_balanced(books: Books, event: Event)
    requires
        books.balanced(),
        event.can_happen(books),
    ensures
        event.applied(books).balanced(),
        match event {
            Event::Arrives => true,
            Event::Asks(i, waiting) | Event::GivesUp(i, waiting) =>
                books.connections[i].slots.burst + place(waiting) <= BURST_LOOKUPS,
            Event::Finishes(i, slot) => slot is Shared ==> books.connections[i].slots.burst
                < BURST_LOOKUPS && books.free < SHARED_LOOKUPS,
        },
{
    let later = event.applied(books);
    match event {
        Event::Arrives => {
            assert(later.connections.drop_last() =~= books.connections);
        },
        Event::Asks(i, _) | Event::GivesUp(i, _) | Event::Finishes(i, _) => {
            assert(books.connections[i].balanced());
            lemma_sharing_updated(books.connections, i, later.connections[i]);
            lemma_sharing_holds(books.connections, i);
        },
    }
    assert forall|i: int| 0 <= i < later.connections.len() implies (
    #[trigger] later.connections[i]).balanced() by {
        if i < books.connections.len() {
            assert(books.connections[i].balanced());
        }
    }
}

/// A connection never runs more lookups than its share of the allowance and the
/// one on its own slot.
pub proof fn a_connection_holds_no_more_than_its_share(books: Books, i: int)
    requires
        books.balanced(),
        0 <= i < books.connections.len(),
    ensures
        books.connections[i].shared + books.connections[i].reserved <= BURST_LOOKUPS + 1,
{
    assert(books.connections[i].balanced());
}

/// Every lookup that runs has a thread to run on, with the spare ones left over,
/// on a server whose connections are capped at no more than the ceiling.
pub proof fn every_lookup_has_a_thread(books: Books, max_connections: u32)
    requires
        books.balanced(),
        0 < max_connections <= RESERVED_LOOKUP_CEILING,
        books.connections.len() <= max_connections,
    ensures
        running(books.connections) <= reserved_threads(max_connections) + SHARED_LOOKUPS,
{
    lemma_running(books.connections);
}

proof fn lemma_running(connections: Seq<Ledger>)
    requires
        forall|i: int| 0 <= i < connections.len() ==> (#[trigger] connections[i]).balanced(),
    ensures
        running(connections) <= connections.len() + sharing(connections),
    decreases connections.len(),
{
    if connections.len() > 0 {
        assert(connections[connections.len() - 1].balanced());
        assert forall|i: int| 0 <= i < connections.drop_last().len() implies (
        #[trigger] connections.drop_last()[i]).balanced() by {
            assert(connections[i].balanced());
        }
        lemma_running(connections.drop_last());
    }
}

proof fn lemma_sharing_updated(connections: Seq<Ledger>, at: int, later: Ledger)
    requires
        0 <= at < connections.len(),
    ensures
        sharing(connections.update(at, later)) == sharing(connections) - connections[at].shared
            + later.shared,
    decreases connections.len(),
{
    let updated = connections.update(at, later);
    if at == connections.len() - 1 {
        assert(updated.drop_last() =~= connections.drop_last());
    } else {
        lemma_sharing_updated(connections.drop_last(), at, later);
        assert(updated.drop_last() =~= connections.drop_last().update(at, later));
    }
}

proof fn lemma_sharing_holds(connections: Seq<Ledger>, at: int)
    requires
        0 <= at < connections.len(),
    ensures
        connections[at].shared <= sharing(connections),
    decreases connections.len(),
{
    if at < connections.len() - 1 {
        lemma_sharing_holds(connections.drop_last(), at);
    }
}

/// A list of one family is left as it is.
pub proof fn a_single_family_is_untouched(addresses: Seq<SocketAddr>, prefer_ipv6: bool)
    requires
        forall|i: int, j: int|
            0 <= i < addresses.len() && 0 <= j < addresses.len() ==> (addresses[i].ip is V6) == (
            addresses[j].ip is V6),
    ensures
        partitioned(addresses, prefer_ipv6) == addresses,
{
    let first = |address: SocketAddr| preferred(address, prefer_ipv6);
    let second = |address: SocketAddr| !preferred(address, prefer_ipv6);
    if addresses.len() == 0 {
        reveal(Seq::filter);
        assert(partitioned(addresses, prefer_ipv6) =~= addresses);
    } else if preferred(addresses[0], prefer_ipv6) {
        lemma_filter_all(addresses, first);
        lemma_filter_none(addresses, second);
        assert(partitioned(addresses, prefer_ipv6) =~= addresses);
    } else {
        lemma_filter_none(addresses, first);
        lemma_filter_all(addresses, second);
        assert(partitioned(addresses, prefer_ipv6) =~= addresses);
    }
}

/// Reordering neither adds an address nor loses one.
pub proof fn every_address_is_kept(addresses: Seq<SocketAddr>, prefer_ipv6: bool)
    ensures
        partitioned(addresses, prefer_ipv6).to_multiset() == addresses.to_multiset(),
    decreases addresses.len(),
{
    broadcast use vstd::seq_lib::group_to_multiset_ensures;

    reveal(Seq::filter);
    let first = |address: SocketAddr| preferred(address, prefer_ipv6);
    let second = |address: SocketAddr| !preferred(address, prefer_ipv6);
    vstd::seq_lib::lemma_multiset_commutative(addresses.filter(first), addresses.filter(second));
    if addresses.len() > 0 {
        let shorter = addresses.drop_last();
        every_address_is_kept(shorter, prefer_ipv6);
        vstd::seq_lib::lemma_multiset_commutative(shorter.filter(first), shorter.filter(second));
        assert(addresses =~= shorter.push(addresses.last()));
        assert(partitioned(addresses, prefer_ipv6).to_multiset() =~= addresses.to_multiset());
    } else {
        assert(partitioned(addresses, prefer_ipv6) =~= addresses);
    }
}

proof fn lemma_filter_all(addresses: Seq<SocketAddr>, keep: spec_fn(SocketAddr) -> bool)
    requires
        forall|i: int| 0 <= i < addresses.len() ==> keep(#[trigger] addresses[i]),
    ensures
        addresses.filter(keep) == addresses,
    decreases addresses.len(),
{
    reveal(Seq::filter);
    if addresses.len() > 0 {
        lemma_filter_all(addresses.drop_last(), keep);
        assert(addresses.drop_last().push(addresses.last()) =~= addresses);
    } else {
        assert(addresses.filter(keep) =~= addresses);
    }
}

proof fn lemma_filter_none(addresses: Seq<SocketAddr>, keep: spec_fn(SocketAddr) -> bool)
    requires
        forall|i: int| 0 <= i < addresses.len() ==> !keep(#[trigger] addresses[i]),
    ensures
        addresses.filter(keep) == Seq::<SocketAddr>::empty(),
    decreases addresses.len(),
{
    reveal(Seq::filter);
    if addresses.len() > 0 {
        lemma_filter_none(addresses.drop_last(), keep);
    }
}

} // verus!
