//! The pool of packet identifiers.
//!
//! Identifiers in flight are kept in three stores, one per purpose:
//! outgoing publishes, subscribe requests and unsubscribe requests. A store
//! is a row of slots; a free slot of the publish store is `None`, a free
//! slot of the other two is zero. New identifiers come from a cursor that
//! walks 1..=65535 round and round and passes over every value that stands
//! in a store.
use vstd::prelude::*;

use crate::packet::PacketId;
use crate::Error;

verus! {

/// The purpose of an identifier that is not a publish.
#[derive(Clone, Copy, Debug, PartialEq, Eq, Structural)]
pub enum Kind {
    Sub,
    Unsub,
}

/// How far the acknowledgement of an outgoing publish has come.
#[derive(Clone, Copy, Debug, PartialEq, Eq, Structural)]
pub enum PubInFlightState {
    AwaitPubAck,
    AwaitPubRec,
    AwaitPubComp,
}

/// An outgoing publish that is not yet fully acknowledged.
#[derive(Clone, Copy, Debug, PartialEq, Eq, Structural)]
pub struct PubInFlight {
    pub id: PacketId,
    pub state: PubInFlightState,
}

/// Slot `i` of the publish store holds the identifier `id`.
pub open spec fn publish_at(slots: Seq<Option<PubInFlight>>, i: int, id: u16) -> bool {
    &&& 0 <= i < slots.len()
    &&& slots[i] matches Some(p)
    &&& p.id.0 == id
}

/// Some slot of the publish store holds the identifier `id`.
pub open spec fn publish_holds(slots: Seq<Option<PubInFlight>>, id: u16) -> bool {
    exists|i: int| publish_at(slots, i, id)
}

/// Slot `i` is the first of the publish store that holds `id`.
pub open spec fn first_publish(slots: Seq<Option<PubInFlight>>, id: u16, i: int) -> bool {
    &&& publish_at(slots, i, id)
    &&& forall|j: int| 0 <= j < i ==> !publish_at(slots, j, id)
}

/// Slot `i` is the first free one of the publish store.
pub open spec fn first_free_publish(slots: Seq<Option<PubInFlight>>, i: int) -> bool {
    &&& 0 <= i < slots.len()
    &&& slots[i] is None
    &&& forall|j: int| 0 <= j < i ==> slots[j] is Some
}

/// Slot `i` is the first that holds `value`.
pub open spec fn first_value(slots: Seq<u16>, value: u16, i: int) -> bool {
    &&& 0 <= i < slots.len()
    &&& slots[i] == value
    &&& forall|j: int| 0 <= j < i ==> slots[j] != value
}

/// The identifier `k` steps after `start` on the round 1..=65535.
pub open spec fn step(start: u16, k: nat) -> u16 {
    (((start - 1 + k) % 65_535) + 1) as u16
}

/// What an outgoing publish waits for first: PUBACK at QoS 1 (`just_ack`),
/// PUBREC at QoS 2.
pub open spec fn first_wait(just_ack: bool) -> PubInFlightState {
    if just_ack {
        PubInFlightState::AwaitPubAck
    } else {
        PubInFlightState::AwaitPubRec
    }
}

/// What an outgoing publish waits for last: PUBACK at QoS 1 (`just_ack`),
/// PUBCOMP at QoS 2.
pub open spec fn last_wait(just_ack: bool) -> PubInFlightState {
    if just_ack {
        PubInFlightState::AwaitPubAck
    } else {
        PubInFlightState::AwaitPubComp
    }
}

/// The state in which the publish store holds `id`, if it holds it.
pub open spec fn publish_state(slots: Seq<Option<PubInFlight>>, id: u16) -> Option<PubInFlightState> {
    if publish_holds(slots, id) {
        Some(slots[choose|i: int| first_publish(slots, id, i)]->Some_0.state)
    } else {
        None
    }
}

pub struct PacketIdPool<const N_PUB_OUT: usize, const N_SUB: usize> {
    in_flight_pub: [Option<PubInFlight>; N_PUB_OUT],
    in_flight_sub: [u16; N_SUB],
    in_flight_unsub: [u16; N_SUB],
    next_id: u16,
}

fn find_value<const N: usize>(slots: &[u16; N], value: u16) -> (r: Option<usize>)
    ensures
        match r {
            Some(i) => first_value(slots@, value, i as int),
            None => !slots@.contains(value),
        },
{
    let mut i: usize = 0;
    while i < N
        invariant
            i <= N,
            slots@.len() == N,
            forall|j: int| 0 <= j < i ==> slots@[j] != value,
        decreases N - i,
    {
        if slots[i] == value {
            return Some(i);
        }
        i += 1;
    }
    None
}

impl<const N_PUB_OUT: usize, const N_SUB: usize> PacketIdPool<N_PUB_OUT, N_SUB> {
    /// The store of outgoing publishes, slot by slot.
    pub closed spec fn publishes(&self) -> Seq<Option<PubInFlight>> {
        self.in_flight_pub@
    }

    /// The store of subscribe requests, slot by slot; zero is a free slot.
    pub closed spec fn subscribes(&self) -> Seq<u16> {
        self.in_flight_sub@
    }

    /// The store of unsubscribe requests, slot by slot; zero is a free slot.
    pub closed spec fn unsubscribes(&self) -> Seq<u16> {
        self.in_flight_unsub@
    }

    /// The identifier that is tried first at the next allocation.
    pub closed spec fn next(&self) -> u16 {
        self.next_id
    }

    /// The store of requests of the given kind.
    pub open spec fn store(&self, kind: Kind) -> Seq<u16> {
        match kind {
            Kind::Sub => self.subscribes(),
            Kind::Unsub => self.unsubscribes(),
        }
    }

    /// The store of requests of the other kind.
    pub open spec fn other_store(&self, kind: Kind) -> Seq<u16> {
        match kind {
            Kind::Sub => self.unsubscribes(),
            Kind::Unsub => self.subscribes(),
        }
    }

    /// `value` stands in one of the three stores.
    pub open spec fn holds(&self, value: u16) -> bool {
        ||| publish_holds(self.publishes(), value)
        ||| self.subscribes().contains(value)
        ||| self.unsubscribes().contains(value)
    }

    /// The state of the outgoing publish `id`, if it is in flight.
    pub open spec fn state_of(&self, id: u16) -> Option<PubInFlightState> {
        publish_state(self.publishes(), id)
    }

    /// Every identifier in a store is non-zero and stands in one slot of
    /// one store only.
    pub open spec fn wf(&self) -> bool {
        &&& self.publishes().len() == N_PUB_OUT
        &&& self.subscribes().len() == N_SUB
        &&& self.unsubscribes().len() == N_SUB
        &&& self.next() != 0
        &&& !publish_holds(self.publishes(), 0)
        &&& forall|i: int, j: int, id: u16|
            publish_at(self.publishes(), i, id) && publish_at(self.publishes(), j, id) ==> i
                == j
        &&& forall|i: int, j: int|
            0 <= i < N_SUB && 0 <= j < N_SUB && i != j && self.subscribes()[i] != 0
                ==> self.subscribes()[i] != self.subscribes()[j]
        &&& forall|i: int, j: int|
            0 <= i < N_SUB && 0 <= j < N_SUB && i != j && self.unsubscribes()[i] != 0
                ==> self.unsubscribes()[i] != self.unsubscribes()[j]
        &&& forall|i: int, j: int|
            0 <= i < N_SUB && 0 <= j < N_SUB && self.subscribes()[i] != 0 ==> self.subscribes()[i]
                != self.unsubscribes()[j]
        &&& forall|i: int, id: u16|
            publish_at(self.publishes(), i, id) ==> !self.subscribes().contains(id)
                && !self.unsubscribes().contains(id)
    }

    /// `other` has the same stores and the same cursor.
    pub open spec fn same(&self, other: &Self) -> bool {
        &&& self.publishes() == other.publishes()
        &&& self.subscribes() == other.subscribes()
        &&& self.unsubscribes() == other.unsubscribes()
        &&& self.next() == other.next()
    }

    /// No store holds anything and the cursor is at 1.
    pub open spec fn is_empty(&self) -> bool {
        &&& self.publishes() == Seq::new(N_PUB_OUT as nat, |i: int| None::<PubInFlight>)
        &&& self.subscribes() == Seq::new(N_SUB as nat, |i: int| 0u16)
        &&& self.unsubscribes() == Seq::new(N_SUB as nat, |i: int| 0u16)
        &&& self.next() == 1
    }

    /// The `k`-th identifier from the cursor is the first that no store holds.
    pub open spec fn candidate(&self, k: nat, id: u16) -> bool {
        &&& k < 65_535
        &&& id == step(self.next(), k)
        &&& !self.holds(id)
        &&& forall|j: nat| j < k ==> self.holds(#[trigger] step(self.next(), j))
    }

    /// Every identifier of the round stands in a store.
    pub open spec fn exhausted(&self) -> bool {
        forall|k: nat| k < 65_535 ==> self.holds(#[trigger] step(self.next(), k))
    }

    /// The publish store has a free slot.
    pub open spec fn has_free_publish(&self) -> bool {
        exists|i: int| first_free_publish(self.publishes(), i)
    }

    /// `after` is this pool after `id` was allocated for a request of the
    /// given kind: `id` is the first identifier from the cursor on that no
    /// store held; it stands in the first slot of the store that was free;
    /// the cursor is past it.
    pub open spec fn request_allocated(&self, after: &Self, kind: Kind, id: PacketId) -> bool {
        &&& id.wf()
        &&& !self.holds(id.0)
        &&& exists|i: int, k: nat|
            {
                &&& #[trigger] first_value(self.store(kind), 0, i)
                &&& #[trigger] self.candidate(k, id.0)
                &&& after.store(kind) == self.store(kind).update(i, id.0)
                &&& after.next() == step(self.next(), k + 1)
            }
        &&& after.other_store(kind) == self.other_store(kind)
        &&& after.publishes() == self.publishes()
    }

    /// `after` is this pool after `id` was allocated for an outgoing
    /// publish: `id` is the first identifier from the cursor on that no
    /// store held; it stands in the first slot of the publish store that
    /// was free, waiting for its first acknowledgement; the cursor is past it.
    pub open spec fn publish_allocated(&self, after: &Self, id: PacketId, just_ack: bool) -> bool {
        &&& id.wf()
        &&& !self.holds(id.0)
        &&& exists|i: int, k: nat|
            {
                &&& #[trigger] first_free_publish(self.publishes(), i)
                &&& #[trigger] self.candidate(k, id.0)
                &&& after.publishes() == self.publishes().update(
                    i,
                    Some(PubInFlight { id, state: first_wait(just_ack) }),
                )
                &&& after.next() == step(self.next(), k + 1)
            }
        &&& after.state_of(id.0) == Some(first_wait(just_ack))
        &&& after.subscribes() == self.subscribes()
        &&& after.unsubscribes() == self.unsubscribes()
    }

    /// `after` is this pool after the PUBREC for the outgoing publish `id`
    /// was noted: the publish waits for PUBCOMP; nothing else has changed.
    pub open spec fn pubrel_noted(&self, after: &Self, id: PacketId) -> bool {
        &&& after.state_of(id.0) == Some(PubInFlightState::AwaitPubComp)
        &&& exists|i: int| #[trigger]
            first_publish(self.publishes(), id.0, i) && after.publishes()
                == self.publishes().update(
                i,
                Some(PubInFlight { id, state: PubInFlightState::AwaitPubComp }),
            )
        &&& after.subscribes() == self.subscribes()
        &&& after.unsubscribes() == self.unsubscribes()
        &&& after.next() == self.next()
    }

    /// `after` is this pool after the outgoing publish `id` was released:
    /// its slot is free and no store holds `id`; nothing else has changed.
    pub open spec fn publish_released(&self, after: &Self, id: PacketId) -> bool {
        &&& after.state_of(id.0) is None
        &&& !after.holds(id.0)
        &&& exists|i: int| #[trigger]
            first_publish(self.publishes(), id.0, i) && after.publishes()
                == self.publishes().update(i, None)
        &&& after.subscribes() == self.subscribes()
        &&& after.unsubscribes() == self.unsubscribes()
        &&& after.next() == self.next()
    }

    /// `after` is this pool after the request `id` of the given kind was
    /// released: its slot is free and, `id` being non-zero, no store holds
    /// it; nothing else has changed.
    pub open spec fn request_released(&self, after: &Self, kind: Kind, id: PacketId) -> bool {
        &&& exists|i: int| #[trigger]
            first_value(self.store(kind), id.0, i) && after.store(kind) == self.store(
                kind,
            ).update(i, 0)
        &&& id.wf() ==> !after.holds(id.0)
        &&& after.other_store(kind) == self.other_store(kind)
        &&& after.publishes() == self.publishes()
        &&& after.next() == self.next()
    }

    /// Putting an identifier that no store holds into a free slot of a
    /// request store keeps the pool well-formed.
    proof fn lemma_put_request(&self, after: &Self, kind: Kind, index: int, id: u16)
        requires
            self.wf(),
            id != 0,
            !self.holds(id),
            0 <= index < N_SUB,
            self.store(kind)[index] == 0,
            after.store(kind) == self.store(kind).update(index, id),
            after.other_store(kind) == self.other_store(kind),
            after.publishes() == self.publishes(),
            after.next() != 0,
        ensures
            after.wf(),
    {
        assert forall|i: int, other: u16| publish_at(after.publishes(), i, other) implies !after.subscribes().contains(
            other,
        ) && !after.unsubscribes().contains(other) by {
            assert(publish_holds(self.publishes(), other));
        }
    }

    pub fn new() -> (pool: Self)
        ensures
            pool.wf(),
            pool.is_empty(),
    {
        let pool = PacketIdPool {
            in_flight_pub: [None;N_PUB_OUT],
            in_flight_sub: [0u16;N_SUB],
            in_flight_unsub: [0u16;N_SUB],
            next_id: 1,
        };
        assert(pool.publishes() =~= Seq::new(N_PUB_OUT as nat, |i: int| None::<PubInFlight>));
        assert(pool.subscribes() =~= Seq::new(N_SUB as nat, |i: int| 0u16));
        assert(pool.unsubscribes() =~= Seq::new(N_SUB as nat, |i: int| 0u16));
        pool
    }

    /// Forgets every identifier in flight and puts the cursor back to 1.
    pub fn clear(&mut self)
        ensures
            final(self).wf(),
            final(self).is_empty(),
    {
        self.in_flight_pub = [None;N_PUB_OUT];
        self.in_flight_sub = [0u16;N_SUB];
        self.in_flight_unsub = [0u16;N_SUB];
        self.next_id = 1;
        assert(self.publishes() =~= Seq::new(N_PUB_OUT as nat, |i: int| None::<PubInFlight>));
        assert(self.subscribes() =~= Seq::new(N_SUB as nat, |i: int| 0u16));
        assert(self.unsubscribes() =~= Seq::new(N_SUB as nat, |i: int| 0u16));
    }

    fn find_free_pub(&self) -> (r: Option<usize>)
        ensures
            match r {
                Some(i) => first_free_publish(self.publishes(), i as int),
                None => forall|j: int| 0 <= j < N_PUB_OUT ==> self.publishes()[j] is Some,
            },
    {
        let mut i: usize = 0;
        while i < N_PUB_OUT
            invariant
                i <= N_PUB_OUT,
                forall|j: int| 0 <= j < i ==> self.in_flight_pub@[j] is Some,
            decreases N_PUB_OUT - i,
        {
            if self.in_flight_pub[i].is_none() {
                return Some(i);
            }
            i += 1;
        }
        None
    }

    fn find_pub(&self, id: u16) -> (r: Option<usize>)
        ensures
            match r {
                Some(i) => first_publish(self.publishes(), id, i as int),
                None => !publish_holds(self.publishes(), id),
            },
    {
        let mut i: usize = 0;
        while i < N_PUB_OUT
            invariant
                i <= N_PUB_OUT,
                forall|j: int| 0 <= j < i ==> !publish_at(self.in_flight_pub@, j, id),
            decreases N_PUB_OUT - i,
        {
            if let Some(entry) = &self.in_flight_pub[i] {
                if entry.id.0 == id {
                    return Some(i);
                }
            }
            i += 1;
        }
        None
    }

    /// Whether `looking_for` stands in one of the three stores.
    pub fn contains(&self, looking_for: u16) -> (r: bool)
        ensures
            r == self.holds(looking_for),
    {
        self.find_pub(looking_for).is_some() || find_value(
            &self.in_flight_sub,
            looking_for,
        ).is_some() || find_value(&self.in_flight_unsub, looking_for).is_some()
    }

    /// The identifier that is tried first at the next allocation.
    pub fn cursor(&self) -> (r: u16)
        ensures
            r == self.next(),
    {
        self.next_id
    }

    /// The state of the outgoing publish `id`, if it is in flight.
    pub fn publish_state(&self, id: &PacketId) -> (r: Option<PubInFlightState>)
        ensures
            r == self.state_of(id.0),
    {
        match self.find_pub(id.0) {
            Some(index) => {
                proof {
                    let chosen = choose|i: int| first_publish(self.publishes(), id.0, i);
                    assert(publish_at(self.publishes(), index as int, id.0));
                    assert(publish_at(self.publishes(), chosen, id.0));
                    assert(chosen == index);
                }
                match self.in_flight_pub[index] {
                    Some(entry) => Some(entry.state),
                    None => None,
                }
            },
            None => None,
        }
    }

    /// Whether `value` stands in the store of requests of the given kind.
    pub fn holds_request(&self, kind: Kind, value: u16) -> (r: bool)
        ensures
            r == self.store(kind).contains(value),
    {
        match kind {
            Kind::Sub => find_value(&self.in_flight_sub, value).is_some(),
            Kind::Unsub => find_value(&self.in_flight_unsub, value).is_some(),
        }
    }

    /// Takes the first identifier from the cursor on that no store holds
    /// and moves the cursor past it. After a full round without one the
    /// cursor is where it was.
    pub fn next_id(&mut self) -> (r: Result<u16, Error>)
        requires
            old(self).wf(),
        ensures
            final(self).publishes() == old(self).publishes(),
            final(self).subscribes() == old(self).subscribes(),
            final(self).unsubscribes() == old(self).unsubscribes(),
            final(self).wf(),
            match r {
                Ok(id) => id != 0 && exists|k: nat| #[trigger]
                    old(self).candidate(k, id) && final(self).next() == step(
                        old(self).next(),
                        k + 1,
                    ),
                Err(e) => e == Error::NoPacketIdAvailable && old(self).exhausted() && final(self).next() == old(self).next(),
            },
    {
        let ghost start = self.next_id;
        let mut k: u32 = 0;
        while k < 65_535
            invariant
                k <= 65_535,
                self.wf(),
                start == old(self).next(),
                start != 0,
                self.next_id == step(start, k as nat),
                self.in_flight_pub == old(self).in_flight_pub,
                self.in_flight_sub == old(self).in_flight_sub,
                self.in_flight_unsub == old(self).in_flight_unsub,
                forall|j: nat| j < k ==> old(self).holds(#[trigger] step(start, j)),
            decreases 65_535 - k,
        {
            let id = self.next_id;
            self.next_id = if self.next_id == u16::MAX {
                1
            } else {
                self.next_id + 1
            };
            assert(self.next_id == step(start, (k + 1) as nat));
            if !self.contains(id) {
                assert(id != 0);
                assert(old(self).holds(id) == self.holds(id));
                assert(old(self).candidate(k as nat, id));
                assert(self.next() == step(old(self).next(), (k as nat) + 1));
                assert(exists|w: nat| #[trigger]
                    old(self).candidate(w, id) && self.next() == step(old(self).next(), w + 1));
                assert(self.wf());
                assert(self.publishes() == old(self).publishes());
                return Ok(id);
            }
            k += 1;
        }
        Err(Error::NoPacketIdAvailable)
    }

    /// The store of requests of the given kind, for writing.
    fn array_mut(&mut self, kind: &Kind) -> (r: &mut [u16; N_SUB])
        ensures
            r@ == old(self).store(*kind),
            final(self).store(*kind) == final(r)@,
            final(self).other_store(*kind) == old(self).other_store(*kind),
            final(self).publishes() == old(self).publishes(),
            final(self).next() == old(self).next(),
    {
        match kind {
            Kind::Sub => &mut self.in_flight_sub,
            Kind::Unsub => &mut self.in_flight_unsub,
        }
    }

    /// Allocates an identifier for a request of the given kind: the first
    /// from the cursor on that no store holds, put into the first free
    /// slot of the store. Fails, and changes nothing, when the store has no
    /// free slot or no identifier is left.
    pub fn next_for(&mut self, kind: Kind) -> (r: Result<PacketId, Error>)
        requires
            old(self).wf(),
        ensures
            final(self).wf(),
            r is Ok <==> old(self).store(kind).contains(0) && !old(self).exhausted(),
            match r {
                Ok(id) => old(self).request_allocated(final(self), kind, id),
                Err(e) => e == Error::NoPacketIdAvailable && final(self).same(old(self)),
            },
    {
        let index = match kind {
            Kind::Sub => find_value(&self.in_flight_sub, 0),
            Kind::Unsub => find_value(&self.in_flight_unsub, 0),
        };
        let index = match index {
            Some(index) => index,
            None => {
                return Err(Error::NoPacketIdAvailable);
            },
        };
        let id = self.next_id()?;
        let ghost mid = *self;
        let ghost k = choose|k: nat| #[trigger]
            old(self).candidate(k, id) && mid.next() == step(old(self).next(), k + 1);

        let array = self.array_mut(&kind);
        array[index] = id;
        let allocated = PacketId(id);
        proof {
            assert(self.other_store(kind) == old(self).other_store(kind));
            assert(self.publishes() == old(self).publishes());
            assert(self.store(kind) == old(self).store(kind).update(index as int, allocated.0));
            old(self).lemma_put_request(self, kind, index as int, id);
            assert(first_value(old(self).store(kind), 0, index as int));
            assert(old(self).candidate(k, allocated.0));
            assert(self.next() == step(old(self).next(), k + 1));
            assert(exists|i: int, w: nat|
                {
                    &&& #[trigger] first_value(old(self).store(kind), 0, i)
                    &&& #[trigger] old(self).candidate(w, allocated.0)
                    &&& self.store(kind) == old(self).store(kind).update(i, allocated.0)
                    &&& self.next() == step(old(self).next(), w + 1)
                });
        }
        Ok(allocated)
    }

    pub fn next_sub_id(&mut self) -> (r: Result<PacketId, Error>)
        requires
            old(self).wf(),
        ensures
            final(self).wf(),
            r is Ok <==> old(self).subscribes().contains(0) && !old(self).exhausted(),
            match r {
                Ok(id) => old(self).request_allocated(final(self), Kind::Sub, id),
                Err(e) => e == Error::NoPacketIdAvailable && final(self).same(old(self)),
            },
    {
        self.next_for(Kind::Sub)
    }

    pub fn next_unsub_id(&mut self) -> (r: Result<PacketId, Error>)
        requires
            old(self).wf(),
        ensures
            final(self).wf(),
            r is Ok <==> old(self).unsubscribes().contains(0) && !old(self).exhausted(),
            match r {
                Ok(id) => old(self).request_allocated(final(self), Kind::Unsub, id),
                Err(e) => e == Error::NoPacketIdAvailable && final(self).same(old(self)),
            },
    {
        self.next_for(Kind::Unsub)
    }

    /// Allocates an identifier for an outgoing publish and records it in
    /// the first free slot, waiting for PUBACK when `just_ack` and for
    /// PUBREC otherwise. Fails, and changes nothing, when the store has no
    /// free slot or no identifier is left.
    pub fn next_pub_id(&mut self, just_ack: bool) -> (r: Result<PacketId, Error>)
        requires
            old(self).wf(),
        ensures
            final(self).wf(),
            r is Ok <==> old(self).has_free_publish() && !old(self).exhausted(),
            match r {
                Ok(id) => old(self).publish_allocated(final(self), id, just_ack),
                Err(e) => e == Error::NoPacketIdAvailable && final(self).same(old(self)),
            },
    {
        let index = match self.find_free_pub() {
            Some(index) => index,
            None => {
                return Err(Error::NoPacketIdAvailable);
            },
        };
        let id = PacketId(self.next_id()?);
        let ghost mid = *self;
        let ghost k = choose|k: nat| #[trigger]
            old(self).candidate(k, id.0) && mid.next() == step(old(self).next(), k + 1);

        let state = match just_ack {
            true => PubInFlightState::AwaitPubAck,
            false => PubInFlightState::AwaitPubRec,
        };
        self.in_flight_pub[index] = Some(PubInFlight { id, state });
        proof {
            let before = old(self).publishes();
            let after = self.publishes();
            assert(after == before.update(index as int, Some(PubInFlight { id, state })));
            assert(old(self).candidate(k, id.0));
            assert(publish_at(after, index as int, id.0));
            assert forall|i: int, other: u16| publish_at(after, i, other) implies (i
                == index && other == id.0) || publish_at(before, i, other) by {}
            assert forall|i: int, j: int, other: u16|
                publish_at(after, i, other) && publish_at(after, j, other) implies i == j by {
                if i != index && j != index {
                    assert(publish_at(before, i, other) && publish_at(before, j, other));
                } else if i != index {
                    assert(publish_at(before, i, id.0));
                } else if j != index {
                    assert(publish_at(before, j, id.0));
                }
            }
            assert(!publish_holds(after, 0)) by {
                if publish_holds(after, 0) {
                    let i = choose|i: int| publish_at(after, i, 0);
                    assert(publish_at(before, i, 0));
                }
            }
            assert forall|i: int, other: u16| publish_at(after, i, other) implies !self.subscribes().contains(
                other,
            ) && !self.unsubscribes().contains(other) by {
                if i != index {
                    assert(publish_at(before, i, other));
                }
            }
            assert(first_publish(after, id.0, index as int));
            let chosen = choose|i: int| first_publish(after, id.0, i);
            assert(chosen == index);
        }
        Ok(id)
    }

    /// Notes that the PUBREC for the outgoing publish `packet_id` has come:
    /// from now on it waits for PUBCOMP. Doing so twice is no fault. An
    /// identifier that is not in flight, or one that waits for PUBACK, is a
    /// `ProtocolViolation` and changes nothing.
    pub fn set_pubrel(&mut self, packet_id: &PacketId) -> (r: Result<(), Error>)
        requires
            old(self).wf(),
        ensures
            final(self).wf(),
            r is Ok <==> old(self).state_of(packet_id.0) == Some(PubInFlightState::AwaitPubRec)
                || old(self).state_of(packet_id.0) == Some(PubInFlightState::AwaitPubComp),
            match r {
                Ok(()) => old(self).pubrel_noted(final(self), *packet_id),
                Err(e) => e == Error::ProtocolViolation && final(self).same(old(self)),
            },
    {
        let index = match self.find_pub(packet_id.0) {
            Some(index) => index,
            None => {
                return Err(Error::ProtocolViolation);
            },
        };
        proof {
            let chosen = choose|i: int| first_publish(old(self).publishes(), packet_id.0, i);
            assert(publish_at(old(self).publishes(), chosen, packet_id.0));
            assert(chosen == index);
        }
        let entry = match self.in_flight_pub[index] {
            Some(entry) => entry,
            None => {
                return Err(Error::ProtocolViolation);
            },
        };
        match entry.state {
            PubInFlightState::AwaitPubRec | PubInFlightState::AwaitPubComp => {
                self.in_flight_pub[index] = Some(
                    PubInFlight { id: entry.id, state: PubInFlightState::AwaitPubComp },
                );
                proof {
                    let before = old(self).publishes();
                    let after = self.publishes();
                    assert(entry.id == *packet_id);
                    assert forall|i: int, other: u16| publish_at(after, i, other) <==> publish_at(
                        before,
                        i,
                        other,
                    ) by {}
                    assert(publish_holds(after, 0) ==> publish_holds(before, 0)) by {
                        if publish_holds(after, 0) {
                            let i = choose|i: int| publish_at(after, i, 0);
                            assert(publish_at(before, i, 0));
                        }
                    }
                    assert(first_publish(after, packet_id.0, index as int));
                    let chosen = choose|i: int| first_publish(after, packet_id.0, i);
                    assert(publish_at(after, chosen, packet_id.0));
                    assert(chosen == index);
                }
                Ok(())
            },
            PubInFlightState::AwaitPubAck => Err(Error::ProtocolViolation),
        }
    }

    /// Ends the flow of the outgoing publish `packet_id` and frees its
    /// slot. With `just_ack` it must wait for PUBACK, without for PUBCOMP;
    /// an identifier in any other state, or none at all, is a
    /// `ProtocolViolation` and changes nothing.
    pub fn release_pub_id(&mut self, packet_id: &PacketId, just_ack: bool) -> (r: Result<
        (),
        Error,
    >)
        requires
            old(self).wf(),
        ensures
            final(self).wf(),
            r is Ok <==> old(self).state_of(packet_id.0) == Some(last_wait(just_ack)),
            match r {
                Ok(()) => old(self).publish_released(final(self), *packet_id),
                Err(e) => e == Error::ProtocolViolation && final(self).same(old(self)),
            },
    {
        let index = match self.find_pub(packet_id.0) {
            Some(index) => index,
            None => {
                return Err(Error::ProtocolViolation);
            },
        };
        proof {
            let chosen = choose|i: int| first_publish(old(self).publishes(), packet_id.0, i);
            assert(publish_at(old(self).publishes(), chosen, packet_id.0));
            assert(chosen == index);
        }
        let entry = match self.in_flight_pub[index] {
            Some(entry) => entry,
            None => {
                return Err(Error::ProtocolViolation);
            },
        };
        match (just_ack, entry.state) {
            (true, PubInFlightState::AwaitPubAck) | (false, PubInFlightState::AwaitPubComp) => {
                self.in_flight_pub[index] = None;
                proof {
                    let before = old(self).publishes();
                    let after = self.publishes();
                    assert forall|i: int, other: u16| publish_at(after, i, other) implies publish_at(
                        before,
                        i,
                        other,
                    ) by {}
                    assert(!publish_holds(after, 0)) by {
                        if publish_holds(after, 0) {
                            let i = choose|i: int| publish_at(after, i, 0);
                            assert(publish_at(before, i, 0));
                        }
                    }
                    assert(!publish_holds(after, packet_id.0)) by {
                        if publish_holds(after, packet_id.0) {
                            let i = choose|i: int| publish_at(after, i, packet_id.0);
                            assert(publish_at(before, i, packet_id.0));
                            assert(publish_at(before, index as int, packet_id.0));
                        }
                    }
                    assert(publish_at(before, index as int, packet_id.0));
                }
                Ok(())
            },
            _ => Err(Error::ProtocolViolation),
        }
    }

    /// Frees the slot of the request `packet_id` of the given kind. An
    /// identifier that the store does not hold is a `ProtocolViolation`
    /// and changes nothing.
    pub fn release_for(&mut self, kind: Kind, packet_id: &PacketId) -> (r: Result<(), Error>)
        requires
            old(self).wf(),
        ensures
            final(self).wf(),
            r is Ok <==> old(self).store(kind).contains(packet_id.0),
            match r {
                Ok(()) => old(self).request_released(final(self), kind, *packet_id),
                Err(e) => e == Error::ProtocolViolation && final(self).same(old(self)),
            },
    {
        let index = match kind {
            Kind::Sub => find_value(&self.in_flight_sub, packet_id.0),
            Kind::Unsub => find_value(&self.in_flight_unsub, packet_id.0),
        };
        match index {
            Some(index) => {
                let array = self.array_mut(&kind);
                array[index] = 0;
                proof {
                    assert(self.store(kind) == old(self).store(kind).update(index as int, 0));
                    assert(old(self).store(kind).contains(packet_id.0));
                    assert forall|i: int, other: u16|
                        publish_at(self.publishes(), i, other) implies !self.subscribes().contains(
                        other,
                    ) && !self.unsubscribes().contains(other) by {
                        assert(publish_holds(old(self).publishes(), other));
                        assert(other != 0);
                    }
                    if packet_id.wf() {
                        assert(!self.store(kind).contains(packet_id.0));
                        if publish_holds(self.publishes(), packet_id.0) {
                            let i = choose|i: int| publish_at(self.publishes(), i, packet_id.0);
                            assert(publish_at(old(self).publishes(), i, packet_id.0));
                        }
                    }
                }
                Ok(())
            },
            None => Err(Error::ProtocolViolation),
        }
    }

    pub fn release_sub_id(&mut self, packet_id: &PacketId) -> (r: Result<(), Error>)
        requires
            old(self).wf(),
        ensures
            final(self).wf(),
            r is Ok <==> old(self).subscribes().contains(packet_id.0),
            match r {
                Ok(()) => old(self).request_released(final(self), Kind::Sub, *packet_id),
                Err(e) => e == Error::ProtocolViolation && final(self).same(old(self)),
            },
    {
        self.release_for(Kind::Sub, packet_id)
    }

    pub fn release_unsub_id(&mut self, packet_id: &PacketId) -> (r: Result<(), Error>)
        requires
            old(self).wf(),
        ensures
            final(self).wf(),
            r is Ok <==> old(self).unsubscribes().contains(packet_id.0),
            match r {
                Ok(()) => old(self).request_released(final(self), Kind::Unsub, *packet_id),
                Err(e) => e == Error::ProtocolViolation && final(self).same(old(self)),
            },
    {
        self.release_for(Kind::Unsub, packet_id)
    }
}

/// In a well-formed pool zero is no identifier in flight, and no
/// identifier stands in two stores at a time.
pub proof fn lemma_stores_disjoint<const N_PUB_OUT: usize, const N_SUB: usize>(
    pool: PacketIdPool<N_PUB_OUT, N_SUB>,
    id: u16,
)
    requires
        pool.wf(),
        id != 0,
    ensures
        !publish_holds(pool.publishes(), 0),
        !(publish_holds(pool.publishes(), id) && pool.subscribes().contains(id)),
        !(publish_holds(pool.publishes(), id) && pool.unsubscribes().contains(id)),
        !(pool.subscribes().contains(id) && pool.unsubscribes().contains(id)),
{
    if publish_holds(pool.publishes(), id) {
        let i = choose|i: int| publish_at(pool.publishes(), i, id);
        assert(publish_at(pool.publishes(), i, id));
    }
    if pool.subscribes().contains(id) && pool.unsubscribes().contains(id) {
        let i = choose|i: int| 0 <= i < pool.subscribes().len() && pool.subscribes()[i] == id;
        let j = choose|j: int| 0 <= j < pool.unsubscribes().len() && pool.unsubscribes()[j] == id;
        assert(pool.subscribes()[i] != pool.unsubscribes()[j]);
    }
}

/// An allocation hands out a non-zero identifier that no store held, and
/// afterwards exactly the store it was allocated for holds it.
pub proof fn lemma_allocation_is_fresh<const N_PUB_OUT: usize, const N_SUB: usize>(
    before: PacketIdPool<N_PUB_OUT, N_SUB>,
    after: PacketIdPool<N_PUB_OUT, N_SUB>,
    kind: Kind,
    id: PacketId,
)
    requires
        before.wf(),
        before.request_allocated(&after, kind, id),
    ensures
        id.0 != 0,
        !before.holds(id.0),
        after.store(kind).contains(id.0),
        !after.other_store(kind).contains(id.0),
        !publish_holds(after.publishes(), id.0),
{
    let (i, k) = choose|i: int, k: nat|
        {
            &&& #[trigger] first_value(before.store(kind), 0, i)
            &&& #[trigger] before.candidate(k, id.0)
            &&& after.store(kind) == before.store(kind).update(i, id.0)
            &&& after.next() == step(before.next(), k + 1)
        };
    assert(after.store(kind)[i] == id.0);
}

} // verus!
