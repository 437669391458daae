//! The tracker of incoming publishes.
//!
//! It remembers the packet identifiers of publishes that were received and
//! how far their acknowledgement has come, so that a publish that the
//! broker sends again is recognised. Entries whose flow is done stay until
//! their slot is needed for another publish.
use vstd::prelude::*;

use crate::packet::PacketId;
use crate::Error;

verus! {

/// How many incoming publishes can be remembered.
pub const N_PUB_IN: usize = 16;

/// How far the flow of an incoming publish has come.
#[derive(Clone, Copy, Debug, PartialEq, Eq, Structural)]
pub enum PubInState {
    AwaitPubRel,
    Done,
}

/// An incoming publish that is remembered.
#[derive(Clone, Copy, Debug, PartialEq, Eq, Structural)]
pub struct PubInFlightIn {
    pub id: PacketId,
    pub state: PubInState,
}

/// The entries that the store of the tracker holds, first to last.
pub uninterp spec fn tracked_of(v: heapless::Vec<PubInFlightIn, N_PUB_IN>) -> Seq<PubInFlightIn>;

/// `heapless::Vec::new`: a store that holds nothing.
#[verifier::external_body]
fn tracked_new() -> (v: heapless::Vec<PubInFlightIn, N_PUB_IN>)
    ensures
        tracked_of(v) == Seq::<PubInFlightIn>::empty(),
{
    heapless::Vec::new()
}

/// `heapless::Vec::push`: puts the item at the end while fewer than the
/// capacity are held, and otherwise hands it back and changes nothing.
#[verifier::external_body]
fn tracked_push(v: &mut heapless::Vec<PubInFlightIn, N_PUB_IN>, item: PubInFlightIn) -> (r: Result<
    (),
    PubInFlightIn,
>)
    ensures
        tracked_of(*old(v)).len() < N_PUB_IN ==> r is Ok && tracked_of(*final(v)) == tracked_of(
            *old(v),
        ).push(item),
        tracked_of(*old(v)).len() >= N_PUB_IN ==> r is Err && tracked_of(*final(v)) == tracked_of(
            *old(v),
        ),
{
    v.push(item)
}

/// `heapless::Vec::as_slice`: the items held, first to last; they are never
/// more than the capacity.
#[verifier::external_body]
fn tracked_slice(v: &heapless::Vec<PubInFlightIn, N_PUB_IN>) -> (s: &[PubInFlightIn])
    ensures
        s@ == tracked_of(*v),
        s@.len() <= N_PUB_IN,
{
    v.as_slice()
}

/// Assignment through the `IndexMut` of `heapless::Vec`: the item at
/// `index` is replaced, the others stay.
#[verifier::external_body]
fn tracked_set(v: &mut heapless::Vec<PubInFlightIn, N_PUB_IN>, index: usize, item: PubInFlightIn)
    requires
        index < tracked_of(*old(v)).len(),
    ensures
        tracked_of(*final(v)) == tracked_of(*old(v)).update(index as int, item),
{
    v[index] = item;
}

/// `heapless::Vec::clear`: nothing is held afterwards.
#[verifier::external_body]
fn tracked_clear(v: &mut heapless::Vec<PubInFlightIn, N_PUB_IN>)
    ensures
        tracked_of(*final(v)) == Seq::<PubInFlightIn>::empty(),
{
    v.clear();
}

/// Some entry of `slots` is for `id`.
pub open spec fn has_entry(slots: Seq<PubInFlightIn>, id: PacketId) -> bool {
    exists|i: int| 0 <= i < slots.len() && (#[trigger] slots[i]).id == id
}

/// The slot that is looked at `k` steps after the one at `cursor`.
pub open spec fn slot_after(cursor: nat, k: nat) -> int {
    ((cursor + k) % (N_PUB_IN as nat)) as int
}

/// Starting at `cursor`, the slot `k` steps on is the first whose flow is done.
pub open spec fn first_done(slots: Seq<PubInFlightIn>, cursor: nat, k: nat) -> bool {
    &&& k < slots.len()
    &&& slots[slot_after(cursor, k)].state == PubInState::Done
    &&& forall|j: nat| j < k ==> (#[trigger] slots[slot_after(cursor, j)]).state != PubInState::Done
}

/// No entry of `slots` is done.
pub open spec fn none_done(slots: Seq<PubInFlightIn>) -> bool {
    forall|i: int| 0 <= i < slots.len() ==> (#[trigger] slots[i]).state != PubInState::Done
}

/// No packet identifier stands in two entries.
#[verifier::opaque]
pub open spec fn distinct_ids(slots: Seq<PubInFlightIn>) -> bool {
    forall|i: int, j: int|
        0 <= i < slots.len() && 0 <= j < slots.len() && i != j ==> (#[trigger] slots[i]).id != (
        #[trigger] slots[j]).id
}

/// The slot of `slots` in which the publish `id` is remembered.
pub open spec fn entry_index(slots: Seq<PubInFlightIn>, id: PacketId) -> int {
    choose|i: int| 0 <= i < slots.len() && (#[trigger] slots[i]).id == id
}

/// Where identifiers are distinct, an entry for `id` is the entry for `id`.
pub proof fn lemma_entry_unique(slots: Seq<PubInFlightIn>, i: int, id: PacketId)
    requires
        distinct_ids(slots),
        0 <= i < slots.len(),
        slots[i].id == id,
    ensures
        has_entry(slots, id),
        entry_index(slots, id) == i,
{
    reveal(distinct_ids);
    let c = entry_index(slots, id);
    assert(0 <= c < slots.len() && slots[c].id == id);
}

/// An entry for a new identifier at the end keeps the identifiers distinct.
proof fn lemma_push_distinct(slots: Seq<PubInFlightIn>, entry: PubInFlightIn)
    requires
        distinct_ids(slots),
        !has_entry(slots, entry.id),
    ensures
        distinct_ids(slots.push(entry)),
{
    reveal(distinct_ids);
    let next = slots.push(entry);
    assert forall|i: int, j: int| 0 <= i < next.len() && 0 <= j < next.len() && i != j implies (
    #[trigger] next[i]).id != (#[trigger] next[j]).id by {
        if i < slots.len() && j < slots.len() {
            assert(slots[i].id != slots[j].id);
        } else if i < slots.len() {
            assert(slots[i].id != entry.id);
        } else {
            assert(slots[j].id != entry.id);
        }
    }
}

/// An entry put in the place of another keeps the identifiers distinct
/// if no other entry is for its identifier.
proof fn lemma_update_distinct(slots: Seq<PubInFlightIn>, at: int, entry: PubInFlightIn)
    requires
        distinct_ids(slots),
        0 <= at < slots.len(),
        !has_entry(slots, entry.id) || slots[at].id == entry.id,
    ensures
        distinct_ids(slots.update(at, entry)),
{
    reveal(distinct_ids);
    let next = slots.update(at, entry);
    assert forall|i: int, j: int| 0 <= i < next.len() && 0 <= j < next.len() && i != j implies (
    #[trigger] next[i]).id != (#[trigger] next[j]).id by {
        if i != at && j != at {
            assert(slots[i].id != slots[j].id);
        } else if i == at {
            assert(slots[j].id != entry.id) by {
                if slots[at].id == entry.id {
                    assert(slots[j].id != slots[at].id);
                }
            }
        } else {
            assert(slots[i].id != entry.id) by {
                if slots[at].id == entry.id {
                    assert(slots[i].id != slots[at].id);
                }
            }
        }
    }
}

/// A full round from `start` has looked at every slot.
proof fn lemma_round_covers(slots: Seq<PubInFlightIn>, start: nat)
    requires
        slots.len() == N_PUB_IN,
        start < N_PUB_IN,
        forall|j: nat|
            j < N_PUB_IN ==> (#[trigger] slots[slot_after(start, j)]).state != PubInState::Done,
    ensures
        none_done(slots),
{
    assert forall|i: int| 0 <= i < slots.len() implies (#[trigger] slots[i]).state
        != PubInState::Done by {
        let j = ((i + N_PUB_IN - start) % (N_PUB_IN as int)) as nat;
        assert(slot_after(start, j) == i);
        assert(slots[slot_after(start, j)].state != PubInState::Done);
    }
}

/// The tracker of incoming publishes.
pub struct Publish {
    cursor: usize,
    pubs: heapless::Vec<PubInFlightIn, N_PUB_IN>,
}

impl Publish {
    /// The entries, slot by slot.
    pub closed spec fn slots(&self) -> Seq<PubInFlightIn> {
        tracked_of(self.pubs)
    }

    /// The slot at which the search for an entry to evict begins.
    pub closed spec fn cursor(&self) -> nat {
        self.cursor as nat
    }

    /// No more entries than slots, the cursor on a slot, and no packet
    /// identifier in two entries.
    pub open spec fn wf(&self) -> bool {
        &&& self.slots().len() <= N_PUB_IN
        &&& self.cursor() < N_PUB_IN
        &&& distinct_ids(self.slots())
    }

    /// The publish `id` is remembered.
    pub open spec fn has(&self, id: PacketId) -> bool {
        has_entry(self.slots(), id)
    }

    /// The state in which the publish `id` is remembered, if it is.
    pub open spec fn state_of(&self, id: PacketId) -> Option<PubInState> {
        if self.has(id) {
            Some(self.slots()[self.index_of(id)].state)
        } else {
            None
        }
    }

    /// `other` has the same entries and the same cursor.
    pub open spec fn same(&self, other: &Self) -> bool {
        self.slots() == other.slots() && self.cursor() == other.cursor()
    }

    /// The slot in which the publish `id` is remembered.
    pub open spec fn index_of(&self, id: PacketId) -> int {
        entry_index(self.slots(), id)
    }

    /// There is a way to remember the publish `id`: it is remembered
    /// already, a slot is free, or some entry is done and can give way.
    pub open spec fn can_insert(&self, id: PacketId) -> bool {
        self.has(id) || self.slots().len() < N_PUB_IN || !none_done(self.slots())
    }

    /// `after` is this tracker after the publish `id` was remembered in
    /// the given state. If it was remembered already, nothing has changed.
    /// Otherwise its entry stands in a slot that was free, or, when there
    /// was none, in the first slot from the cursor on whose flow was done,
    /// and the cursor is past that slot.
    pub open spec fn inserted(&self, after: &Self, id: PacketId, state: PubInState) -> bool {
        &&& after.has(id)
        &&& if self.has(id) {
            after.same(self)
        } else if self.slots().len() < N_PUB_IN {
            &&& after.slots() == self.slots().push(PubInFlightIn { id, state })
            &&& after.cursor() == self.cursor()
        } else {
            exists|k: nat|
                {
                    &&& #[trigger] first_done(self.slots(), self.cursor(), k)
                    &&& after.slots() == self.slots().update(
                        slot_after(self.cursor(), k),
                        PubInFlightIn { id, state },
                    )
                    &&& after.cursor() == slot_after(self.cursor(), k + 1)
                }
        }
    }

    /// `after` is this tracker after the flow of the publish `id` was
    /// noted as done; nothing else has changed.
    pub open spec fn completed(&self, after: &Self, id: PacketId) -> bool {
        &&& after.state_of(id) == Some(PubInState::Done)
        &&& after.cursor() == self.cursor()
        &&& exists|i: int|
            {
                &&& 0 <= i < self.slots().len()
                &&& (#[trigger] self.slots()[i]).id == id
                &&& after.slots() == self.slots().update(
                    i,
                    PubInFlightIn { id, state: PubInState::Done },
                )
            }
    }

    pub fn new() -> (r: Self)
        ensures
            r.wf(),
            r.slots().len() == 0,
            r.cursor() == 0,
    {
        proof {
            reveal(distinct_ids);
        }
        Publish { cursor: 0, pubs: tracked_new() }
    }

    /// Forgets every publish.
    pub fn clear(&mut self)
        ensures
            final(self).wf(),
            final(self).slots().len() == 0,
            final(self).cursor() == 0,
    {
        proof {
            reveal(distinct_ids);
        }
        tracked_clear(&mut self.pubs);
        self.cursor = 0;
    }

    /// Where the publish `id` is remembered and in which state.
    pub fn find(&self, id: &PacketId) -> (r: Option<(usize, PubInState)>)
        ensures
            match r {
                Some((i, state)) => i < self.slots().len() && self.slots()[i as int]
                    == (PubInFlightIn { id: *id, state }),
                None => !self.has(*id),
            },
            self.wf() ==> r == match self.state_of(*id) {
                Some(state) => Some((self.index_of(*id) as usize, state)),
                None => None::<(usize, PubInState)>,
            },
    {
        let slots = tracked_slice(&self.pubs);
        let mut i: usize = 0;
        while i < slots.len()
            invariant
                i <= slots@.len(),
                slots@ == self.slots(),
                forall|j: int| 0 <= j < i ==> (#[trigger] slots@[j]).id != *id,
            decreases slots@.len() - i,
        {
            if slots[i].id.0 == id.0 {
                proof {
                    assert(self.slots()[i as int].id == *id);
                    if self.wf() {
                        lemma_entry_unique(self.slots(), i as int, *id);
                    }
                }
                return Some((i, slots[i].state));
            }
            i += 1;
        }
        None
    }

    /// Moves the cursor to the next slot, round the store.
    fn shift_cursor(&mut self)
        requires
            old(self).cursor() < N_PUB_IN,
        ensures
            final(self).slots() == old(self).slots(),
            final(self).cursor() == slot_after(old(self).cursor(), 1),
    {
        self.cursor += 1;

        if self.cursor >= N_PUB_IN {
            self.cursor = 0;
        }
    }

    /// Remembers the publish `id` in the given state. One that is
    /// remembered already is left as it is. Otherwise the entry goes into
    /// a free slot, or, when there is none, into the first slot from the
    /// cursor on whose flow is done, and the cursor moves past that slot.
    fn insert(&mut self, packet_id: &PacketId, state: PubInState) -> (r: Result<(), Error>)
        requires
            old(self).wf(),
        ensures
            final(self).wf(),
            r is Ok <==> old(self).can_insert(*packet_id),
            match r {
                Ok(()) => old(self).inserted(final(self), *packet_id, state),
                Err(e) => e == Error::VectorIsFull && final(self).same(old(self)),
            },
    {
        if self.find(packet_id).is_some() {
            return Ok(());
        }
        let entry = PubInFlightIn { id: *packet_id, state };
        let len = tracked_slice(&self.pubs).len();

        if len < N_PUB_IN {
            let _ = tracked_push(&mut self.pubs, entry);
            proof {
                lemma_push_distinct(old(self).slots(), entry);
                assert(self.slots()[len as int].id == *packet_id);
            }
            return Ok(());
        }
        let ghost start = self.cursor();
        let mut k: usize = 0;
        while k < len
            invariant
                k <= len,
                len == N_PUB_IN,
                self.slots() == old(self).slots(),
                self.slots().len() == len,
                start == old(self).cursor(),
                start < N_PUB_IN,
                self.cursor() == slot_after(start, k as nat),
                forall|j: nat|
                    j < k ==> (#[trigger] self.slots()[slot_after(start, j)]).state
                        != PubInState::Done,
                distinct_ids(old(self).slots()),
                !has_entry(old(self).slots(), *packet_id),
                entry == (PubInFlightIn { id: *packet_id, state }),
            decreases len - k,
        {
            let at = self.cursor;
            if tracked_slice(&self.pubs)[at].state == PubInState::Done {
                tracked_set(&mut self.pubs, at, entry);
                self.shift_cursor();
                proof {
                    lemma_update_distinct(old(self).slots(), at as int, entry);
                    assert(first_done(old(self).slots(), start, k as nat));
                    assert(self.slots()[at as int].id == *packet_id);
                    assert(!none_done(old(self).slots()));
                }
                return Ok(());
            }
            self.shift_cursor();
            k += 1;
        }
        proof {
            lemma_round_covers(self.slots(), start);
        }
        Err(Error::VectorIsFull)
    }

    /// Remembers the incoming publish `packet_id` as waiting for its
    /// PUBREL. One that is remembered already is left as it is. When the
    /// store is full, the first entry from the cursor on whose flow is
    /// done gives way; when none is done, the publish is refused with
    /// `VectorIsFull`.
    pub fn track(&mut self, packet_id: &PacketId) -> (r: Result<(), Error>)
        requires
            old(self).wf(),
        ensures
            final(self).wf(),
            r is Ok <==> old(self).can_insert(*packet_id),
            match r {
                Ok(()) => old(self).inserted(final(self), *packet_id, PubInState::AwaitPubRel),
                Err(e) => e == Error::VectorIsFull && final(self).same(old(self)),
            },
    {
        self.insert(packet_id, PubInState::AwaitPubRel)
    }

    /// Remembers the incoming publish `packet_id` as done from the start:
    /// for a publish whose only acknowledgement goes out at once. The slot
    /// is found as `track` finds it.
    pub fn track_acked(&mut self, packet_id: &PacketId) -> (r: Result<(), Error>)
        requires
            old(self).wf(),
        ensures
            final(self).wf(),
            r is Ok <==> old(self).can_insert(*packet_id),
            match r {
                Ok(()) => old(self).inserted(final(self), *packet_id, PubInState::Done),
                Err(e) => e == Error::VectorIsFull && final(self).same(old(self)),
            },
    {
        self.insert(packet_id, PubInState::Done)
    }

    /// Notes that the PUBREL for the incoming publish `packet_id` has
    /// come: its flow is done. A publish that is not remembered is a
    /// `ProtocolViolation`.
    pub fn mark_complete(&mut self, packet_id: &PacketId) -> (r: Result<(), Error>)
        requires
            old(self).wf(),
        ensures
            final(self).wf(),
            r is Ok <==> old(self).has(*packet_id),
            match r {
                Ok(()) => old(self).completed(final(self), *packet_id),
                Err(e) => e == Error::ProtocolViolation && final(self).same(old(self)),
            },
    {
        let (index, state) = match self.find(packet_id) {
            Some(found) => found,
            None => {
                return Err(Error::ProtocolViolation);
            },
        };
        if state == PubInState::AwaitPubRel {
            tracked_set(
                &mut self.pubs,
                index,
                PubInFlightIn { id: *packet_id, state: PubInState::Done },
            );
        }
        proof {
            let before = old(self).slots();
            let done = PubInFlightIn { id: *packet_id, state: PubInState::Done };
            assert(self.slots() =~= before.update(index as int, done));
            assert(before[index as int].id == *packet_id);
            lemma_update_distinct(before, index as int, done);
            lemma_entry_unique(self.slots(), index as int, *packet_id);
        }
        Ok(())
    }
}

} // verus!
