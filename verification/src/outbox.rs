//! The queue of packets that wait to be sent.
//!
//! Packets are encoded, one behind the other, into a byte buffer that the
//! caller supplies; a bounded queue remembers where each one lies. They
//! leave in the order in which they came. When the first one has left, the
//! others are moved to the front of the buffer.
use vstd::prelude::*;

use crate::packet::encode::{self, wrote};
use crate::packet::Packet;
use crate::Error;

verus! {

/// How many packets can wait at a time.
pub const OUT_QUEUE_SIZE: usize = 16;

/// The ranges that the queue holds, front to back.
pub uninterp spec fn ranges_of(q: heapless::Deque<(usize, usize), OUT_QUEUE_SIZE>) -> Seq<
    (usize, usize),
>;

/// `heapless::Deque::new`: a queue that holds nothing.
#[verifier::external_body]
fn ranges_new() -> (q: heapless::Deque<(usize, usize), OUT_QUEUE_SIZE>)
    ensures
        ranges_of(q) == Seq::<(usize, usize)>::empty(),
{
    heapless::Deque::new()
}

/// `heapless::Deque::len`: how many items are held; never more than the
/// capacity.
#[verifier::external_body]
fn ranges_len(q: &heapless::Deque<(usize, usize), OUT_QUEUE_SIZE>) -> (n: usize)
    ensures
        n == ranges_of(*q).len(),
        n <= OUT_QUEUE_SIZE,
{
    q.len()
}

/// `heapless::Deque::front`: the item at the front, if there is one.
#[verifier::external_body]
fn ranges_front(q: &heapless::Deque<(usize, usize), OUT_QUEUE_SIZE>) -> (r: Option<(usize, usize)>)
    ensures
        r == if ranges_of(*q).len() == 0 {
            None
        } else {
            Some(ranges_of(*q)[0])
        },
{
    q.front().copied()
}

/// `heapless::Deque::push_back`: puts the item at the back while fewer
/// than the capacity are held, and otherwise hands it back and changes
/// nothing.
#[verifier::external_body]
fn ranges_push_back(q: &mut heapless::Deque<(usize, usize), OUT_QUEUE_SIZE>, item: (usize, usize)) -> (r: Result<
    (),
    (usize, usize),
>)
    ensures
        ranges_of(*old(q)).len() < OUT_QUEUE_SIZE ==> r is Ok && ranges_of(*final(q)) == ranges_of(
            *old(q),
        ).push(item),
        ranges_of(*old(q)).len() >= OUT_QUEUE_SIZE ==> r is Err && ranges_of(*final(q))
            == ranges_of(*old(q)),
{
    q.push_back(item)
}

/// `heapless::Deque::pop_front`: takes the item at the front out, if
/// there is one.
#[verifier::external_body]
fn ranges_pop_front(q: &mut heapless::Deque<(usize, usize), OUT_QUEUE_SIZE>) -> (r: Option<
    (usize, usize),
>)
    ensures
        ranges_of(*old(q)).len() == 0 ==> r is None && ranges_of(*final(q)) == ranges_of(*old(q)),
        ranges_of(*old(q)).len() > 0 ==> r == Some(ranges_of(*old(q))[0]) && ranges_of(*final(q))
            == ranges_of(*old(q)).skip(1),
{
    q.pop_front()
}

/// The bytes of `storage` that `range` spans.
pub open spec fn bytes_at(storage: Seq<u8>, range: (usize, usize)) -> Seq<u8> {
    storage.subrange(range.0 as int, range.1 as int)
}

/// The packets that `ranges` span in `storage`.
pub open spec fn packets_in(storage: Seq<u8>, ranges: Seq<(usize, usize)>) -> Seq<Seq<u8>> {
    Seq::new(ranges.len(), |i: int| bytes_at(storage, ranges[i]))
}

/// Each range lies behind the one before it and all lie before `limit`.
pub open spec fn in_order(ranges: Seq<(usize, usize)>, limit: nat) -> bool {
    &&& forall|i: int| 0 <= i < ranges.len() ==> (#[trigger] ranges[i]).0 <= ranges[i].1 <= limit
    &&& forall|i: int, j: int|
        0 <= i < j < ranges.len() ==> (#[trigger] ranges[i]).1 <= (#[trigger] ranges[j]).0
}

/// The ranges lie one directly behind the other, the first at 0, the
/// last ending at `end`.
pub open spec fn contiguous(ranges: Seq<(usize, usize)>, end: nat) -> bool {
    &&& forall|i: int| 0 <= i < ranges.len() ==> (#[trigger] ranges[i]).0 <= ranges[i].1
    &&& ranges.len() > 0 ==> ranges[0].0 == 0 && ranges.last().1 == end
    &&& ranges.len() == 0 ==> end == 0
    &&& forall|i: int| 0 < i < ranges.len() ==> (#[trigger] ranges[i]).0 == ranges[i - 1].1
}

/// The outbound queue.
pub struct Outbox<'a> {
    buf: &'a mut [u8],
    cursor: usize,
    queue: heapless::Deque<(usize, usize), OUT_QUEUE_SIZE>,
}

impl<'a> Outbox<'a> {
    /// The buffer as it now stands.
    pub closed spec fn storage(&self) -> Seq<u8> {
        self.buf@
    }

    /// Where in the buffer the waiting packets lie, first to last.
    pub closed spec fn ranges(&self) -> Seq<(usize, usize)> {
        ranges_of(self.queue)
    }

    /// Where in the buffer the next packet goes while others wait.
    pub closed spec fn cursor(&self) -> nat {
        self.cursor as nat
    }

    /// The size of the buffer.
    pub open spec fn capacity(&self) -> nat {
        self.storage().len()
    }

    /// The waiting packets, first to last, each as it goes on the wire.
    pub open spec fn packets(&self) -> Seq<Seq<u8>> {
        packets_in(self.storage(), self.ranges())
    }

    /// The ranges are in the order of their packets, do not overlap and
    /// lie within the written part of the buffer.
    pub open spec fn wf(&self) -> bool {
        &&& self.cursor() <= self.capacity()
        &&& self.ranges().len() <= OUT_QUEUE_SIZE
        &&& in_order(self.ranges(), self.cursor())
    }

    /// The packets lie at the front of the buffer without gaps, and the
    /// cursor is at their end.
    pub open spec fn compacted(&self) -> bool {
        contiguous(self.ranges(), self.cursor())
    }

    /// Where the next packet goes: at the cursor, or at the front of the
    /// buffer when nothing waits.
    pub open spec fn write_position(&self) -> nat {
        if self.ranges().len() == 0 {
            0
        } else {
            self.cursor()
        }
    }

    /// Why a packet is not taken into the queue, if it is not.
    pub open spec fn enqueue_error(&self, packet: crate::packet::PacketView) -> Option<Error> {
        if !packet.encodable() {
            Some(Error::MalformedPacket)
        } else if self.write_position() + packet.size() > self.capacity() {
            Some(Error::BufferTooSmall)
        } else if self.ranges().len() >= OUT_QUEUE_SIZE {
            Some(Error::VectorIsFull)
        } else {
            None
        }
    }

    /// `after` is this queue with `packet` taken in: the packet waits
    /// behind the others and lies in the buffer from the write position
    /// on, and the cursor is at its end.
    pub open spec fn enqueued(&self, after: &Self, packet: crate::packet::PacketView) -> bool {
        &&& after.packets() == self.packets().push(packet.bytes())
        &&& after.ranges() == self.ranges().push(
            (self.write_position() as usize, (self.write_position() + packet.size()) as usize),
        )
        &&& after.cursor() == self.write_position() + packet.size()
    }

    /// `after` is as this queue is: buffer, ranges and cursor.
    pub open spec fn unchanged(&self, after: &Self) -> bool {
        &&& after.storage() == self.storage()
        &&& after.ranges() == self.ranges()
        &&& after.cursor() == self.cursor()
    }

    /// Why a second packet is not taken into the queue right behind a
    /// first one that is, if it is not.
    pub open spec fn enqueue_error_behind(
        &self,
        first: crate::packet::PacketView,
        second: crate::packet::PacketView,
    ) -> Option<Error> {
        if !second.encodable() {
            Some(Error::MalformedPacket)
        } else if self.write_position() + first.size() + second.size() > self.capacity() {
            Some(Error::BufferTooSmall)
        } else if self.ranges().len() + 1 >= OUT_QUEUE_SIZE {
            Some(Error::VectorIsFull)
        } else {
            None
        }
    }

    /// An empty queue over `buf`.
    pub fn new(buf: &'a mut [u8]) -> (r: Self)
        ensures
            r.wf(),
            r.compacted(),
            r.packets().len() == 0,
            r.cursor() == 0,
            r.capacity() == old(buf)@.len(),
    {
        Outbox { buf, cursor: 0, queue: ranges_new() }
    }

    /// How many packets wait.
    pub fn len(&self) -> (r: usize)
        ensures
            r == self.packets().len(),
    {
        ranges_len(&self.queue)
    }

    /// Where in the buffer the next packet goes while others wait.
    pub fn write_cursor(&self) -> (r: usize)
        ensures
            r == self.cursor(),
    {
        self.cursor
    }

    /// Whether a packet waits.
    pub fn has_pending(&self) -> (r: bool)
        ensures
            r == (self.packets().len() > 0),
    {
        ranges_len(&self.queue) > 0
    }

    /// Whether `enqueue` would take the packet, and if not, why not.
    pub fn check(&self, packet: &Packet) -> (r: Result<(), Error>)
        requires
            self.wf(),
        ensures
            r == match self.enqueue_error(packet@) {
                Some(e) => Err::<(), Error>(e),
                None => Ok(()),
            },
    {
        let waiting = ranges_len(&self.queue);
        let start = if waiting == 0 {
            0
        } else {
            self.cursor
        };
        if packet.body_len().is_none() {
            return Err(Error::MalformedPacket);
        }
        if packet.required_space() > self.buf.len() - start {
            return Err(Error::BufferTooSmall);
        }
        if waiting >= OUT_QUEUE_SIZE {
            return Err(Error::VectorIsFull);
        }
        Ok(())
    }

    /// Encodes a packet behind the ones that wait. A packet without a wire
    /// form is refused with `MalformedPacket`, one for which the buffer
    /// has no room with `BufferTooSmall`, one too many with
    /// `VectorIsFull`; a refusal changes nothing.
    pub fn enqueue(&mut self, packet: &Packet) -> (r: Result<(), Error>)
        requires
            old(self).wf(),
        ensures
            final(self).wf(),
            final(self).capacity() == old(self).capacity(),
            old(self).compacted() ==> final(self).compacted(),
            match old(self).enqueue_error(packet@) {
                Some(e) => r == Err::<(), Error>(e) && old(self).unchanged(final(self)),
                None => r is Ok && old(self).enqueued(final(self), packet@),
            },
    {
        let waiting = ranges_len(&self.queue);
        let start = if waiting == 0 {
            0
        } else {
            self.cursor
        };
        if packet.body_len().is_none() {
            return Err(Error::MalformedPacket);
        }
        let needed = packet.required_space();
        if needed > self.buf.len() - start {
            return Err(Error::BufferTooSmall);
        }
        if waiting >= OUT_QUEUE_SIZE {
            return Err(Error::VectorIsFull);
        }
        let end = start + needed;
        let ghost before = self.buf@;
        let mut cursor = encode::Cursor::resume(&mut *self.buf, start);
        let ghost pre = cursor;
        let _ = packet.encode(&mut cursor);
        proof {
            assert(wrote(pre, cursor, packet@.bytes()));
        }
        let ghost after = cursor.storage();
        let _ = cursor.finish();
        let _ = ranges_push_back(&mut self.queue, (start, end));
        self.cursor = end;
        proof {
            let old_ranges = old(self).ranges();
            assert(self.buf@ == after);
            assert(bytes_at(after, (start, end)) =~= packet@.bytes());
            assert forall|i: int| 0 <= i < old_ranges.len() implies bytes_at(after, old_ranges[i])
                == bytes_at(before, old_ranges[i]) by {
                assert(old_ranges[i].1 <= start);
                assert(bytes_at(after, old_ranges[i]) =~= bytes_at(before, old_ranges[i]));
            }
            assert(self.packets() =~= old(self).packets().push(packet@.bytes()));
        }
        Ok(())
    }

    /// The packet that leaves next, as it goes on the wire.
    pub fn head(&self) -> (r: Option<&[u8]>)
        requires
            self.wf(),
        ensures
            match r {
                Some(bytes) => self.packets().len() > 0 && bytes@ == self.packets()[0],
                None => self.packets().len() == 0,
            },
    {
        match ranges_front(&self.queue) {
            Some((start, end)) => {
                assert(self.ranges()[0].1 <= self.cursor());
                Some(vstd::slice::slice_subrange(self.buf, start, end))
            },
            None => None,
        }
    }

    /// Takes the packet that left out of the queue and moves the others
    /// to the front of the buffer.
    pub fn complete_head(&mut self) -> (r: Result<(), Error>)
        requires
            old(self).wf(),
        ensures
            r is Ok,
            final(self).wf(),
            final(self).compacted(),
            final(self).capacity() == old(self).capacity(),
            final(self).packets() == if old(self).packets().len() > 0 {
                old(self).packets().skip(1)
            } else {
                old(self).packets()
            },
    {
        let _ = ranges_pop_front(&mut self.queue);
        proof {
            let before = old(self).ranges();
            let now = self.ranges();
            if before.len() > 0 {
                assert forall|i: int| 0 <= i < now.len() implies now[i] == before[i + 1] by {}
                assert(self.packets() =~= old(self).packets().skip(1));
            }
        }
        self.compact()
    }

    /// Moves the waiting packets to the front of the buffer, one directly
    /// behind the other, and puts the cursor at their end. The packets
    /// and their order stay as they are.
    pub fn compact(&mut self) -> (r: Result<(), Error>)
        requires
            old(self).wf(),
        ensures
            r is Ok,
            final(self).wf(),
            final(self).compacted(),
            final(self).capacity() == old(self).capacity(),
            final(self).packets() == old(self).packets(),
    {
        let count = ranges_len(&self.queue);
        let ghost source = old(self).ranges();
        let ghost origin = old(self).storage();
        let ghost mut moved: Seq<(usize, usize)> = Seq::empty();
        let mut cursor: usize = 0;
        let mut k: usize = 0;

        assert(source.skip(0) + moved =~= source);
        while k < count
            invariant
                k <= count,
                count == source.len(),
                count <= OUT_QUEUE_SIZE,
                in_order(source, old(self).cursor()),
                old(self).cursor() <= origin.len(),
                self.storage().len() == origin.len(),
                self.ranges() == source.skip(k as int) + moved,
                compacting(origin, self.storage(), source, moved, k as int, cursor),
            decreases count - k,
        {
            let ghost held = self.storage();
            proof {
                lemma_rotate(source, moved, k as int, (0, 0));
            }
            let range = match ranges_pop_front(&mut self.queue) {
                Some(range) => range,
                None => {
                    return Err(Error::QueueRangeError);
                },
            };
            if range.0 < cursor {
                return Err(Error::QueueRangeError);
            }
            let len = range.1 - range.0;
            if range.0 - cursor > 0 {
                crate::buffer::slide_down(&mut *self.buf, range.0, cursor, len);
            }
            let target = (cursor, cursor + len);
            let _ = ranges_push_back(&mut self.queue, target);
            proof {
                lemma_rotate(source, moved, k as int, target);
                lemma_compact_step(
                    origin,
                    held,
                    self.storage(),
                    source,
                    moved,
                    k as int,
                    cursor,
                    old(self).cursor(),
                );
                moved = moved.push(target);
            }
            cursor += len;
            k += 1;
        }
        self.cursor = cursor;
        proof {
            assert(self.ranges() =~= moved);
            lemma_compact_done(origin, self.storage(), source, moved, cursor);
        }
        Ok(())
    }
}

/// The state in the middle of a compaction: the first `k` packets lie at
/// the front of the buffer, one directly behind the other, up to `cursor`;
/// from `cursor` on the buffer is as it was before.
pub open spec fn compacting(
    origin: Seq<u8>,
    now: Seq<u8>,
    source: Seq<(usize, usize)>,
    moved: Seq<(usize, usize)>,
    k: int,
    cursor: usize,
) -> bool {
    &&& now.len() == origin.len()
    &&& 0 <= k <= source.len()
    &&& moved.len() == k
    &&& contiguous(moved, cursor as nat)
    &&& k > 0 ==> cursor <= source[k - 1].1
    &&& forall|t: int| cursor <= t < origin.len() ==> #[trigger] now[t] == origin[t]
    &&& forall|i: int|
        0 <= i < k ==> bytes_at(now, #[trigger] moved[i]) == bytes_at(origin, source[i])
}

/// Taking the front range out and putting its new place at the back
/// turns the queue of one step into the queue of the next.
proof fn lemma_rotate(
    source: Seq<(usize, usize)>,
    moved: Seq<(usize, usize)>,
    k: int,
    target: (usize, usize),
)
    requires
        0 <= k < source.len(),
    ensures
        (source.skip(k) + moved).len() > 0,
        (source.skip(k) + moved)[0] == source[k],
        (source.skip(k) + moved).skip(1).push(target) == source.skip(k + 1) + moved.push(target),
{
    assert((source.skip(k) + moved).skip(1).push(target) =~= source.skip(k + 1) + moved.push(
        target,
    ));
}

/// One step of a compaction: after packet `k` was copied down to
/// `cursor`, the first `k + 1` packets lie at the front of the buffer.
proof fn lemma_compact_step(
    origin: Seq<u8>,
    held: Seq<u8>,
    now: Seq<u8>,
    source: Seq<(usize, usize)>,
    moved: Seq<(usize, usize)>,
    k: int,
    cursor: usize,
    limit: nat,
)
    requires
        0 <= k < source.len(),
        in_order(source, limit),
        limit <= origin.len(),
        compacting(origin, held, source, moved, k, cursor),
        cursor <= source[k].0,
        now.len() == held.len(),
        forall|t: int|
            0 <= t < now.len() ==> #[trigger] now[t] == if cursor <= t < cursor + (source[k].1
                - source[k].0) {
                held[source[k].0 + t - cursor]
            } else {
                held[t]
            },
    ensures
        compacting(
            origin,
            now,
            source,
            moved.push((cursor, (cursor + source[k].1 - source[k].0) as usize)),
            k + 1,
            (cursor + source[k].1 - source[k].0) as usize,
        ),
        k + 1 < source.len() ==> cursor + source[k].1 - source[k].0 <= source[k + 1].0,
{
    let range = source[k];
    let len = range.1 - range.0;
    let end = (cursor + len) as usize;
    let target = (cursor, end);
    let next = moved.push(target);
    assert(range.0 <= range.1 <= limit);
    assert(k > 0 ==> source[k - 1].1 <= source[k].0);
    assert(bytes_at(now, target) =~= bytes_at(origin, range)) by {
        assert forall|t: int| cursor <= t < cursor + len implies #[trigger] now[t]
            == origin[range.0 + t - cursor] by {
            assert(now[t] == held[range.0 + t - cursor]);
            assert(held[range.0 + t - cursor] == origin[range.0 + t - cursor]);
        }
    }
    assert forall|i: int| 0 <= i < k + 1 implies bytes_at(now, #[trigger] next[i]) == bytes_at(
        origin,
        source[i],
    ) by {
        if i < k {
            assert(next[i] == moved[i]);
            assert(moved[i].1 <= cursor) by {
                if i < k - 1 {
                    lemma_contiguous_ordered(moved, cursor as nat, i, k - 1);
                }
            }
            assert(bytes_at(now, moved[i]) =~= bytes_at(held, moved[i]));
        }
    }
    assert forall|t: int| end <= t < origin.len() implies #[trigger] now[t] == origin[t] by {
        assert(now[t] == held[t]);
    }
    if k + 1 < source.len() {
        assert(source[k].1 <= source[k + 1].0);
    }
}

/// The end of a compaction: the packets are the ones from before, in
/// their order, and lie at the front of the buffer.
proof fn lemma_compact_done(
    origin: Seq<u8>,
    now: Seq<u8>,
    source: Seq<(usize, usize)>,
    moved: Seq<(usize, usize)>,
    cursor: usize,
)
    requires
        compacting(origin, now, source, moved, source.len() as int, cursor),
        cursor <= origin.len() || source.len() == 0,
    ensures
        packets_in(now, moved) == packets_in(origin, source),
        in_order(moved, cursor as nat),
        contiguous(moved, cursor as nat),
{
    assert(packets_in(now, moved) =~= packets_in(origin, source));
    assert forall|i: int, j: int| 0 <= i < j < moved.len() implies (#[trigger] moved[i]).1 <= (
    #[trigger] moved[j]).0 by {
        lemma_contiguous_ordered(moved, cursor as nat, i, j);
    }
    assert forall|i: int| 0 <= i < moved.len() implies (#[trigger] moved[i]).0 <= moved[i].1
        <= cursor by {
        if i < moved.len() - 1 {
            lemma_contiguous_ordered(moved, cursor as nat, i, moved.len() - 1);
        }
    }
}

/// In a gapless run of ranges an earlier one ends before a later one begins.
proof fn lemma_contiguous_ordered(ranges: Seq<(usize, usize)>, end: nat, i: int, j: int)
    requires
        contiguous(ranges, end),
        0 <= i < j < ranges.len(),
    ensures
        ranges[i].1 <= ranges[j].0,
    decreases j - i,
{
    if j == i + 1 {
        assert(ranges[j].0 == ranges[j - 1].1);
    } else {
        lemma_contiguous_ordered(ranges, end, i, j - 1);
        assert(ranges[j].0 == ranges[j - 1].1);
    }
}

/// Whatever is enqueued and whenever the head leaves: the waiting packets
/// lie in the buffer in their order, without overlap; once all have left,
/// the cursor is back at 0.
pub proof fn lemma_outbox_ranges(outbox: Outbox)
    requires
        outbox.wf(),
    ensures
        forall|i: int|
            0 <= i < outbox.ranges().len() ==> (#[trigger] outbox.ranges()[i]).0
                <= outbox.ranges()[i].1 <= outbox.capacity(),
        forall|i: int, j: int|
            0 <= i < j < outbox.ranges().len() ==> (#[trigger] outbox.ranges()[i]).1 <= (
            #[trigger] outbox.ranges()[j]).0,
        outbox.compacted() && outbox.packets().len() == 0 ==> outbox.cursor() == 0,
{
}

} // verus!
