//! The queue between the local socket and the tunnel, and what is counted of it.
//!
//! Instants are nanoseconds on the clock of the relay.
use std::collections::VecDeque;
use vstd::prelude::*;

verus! {

/// The largest datagram that the relay carries.
pub const MAX_PACKET: usize = 2048;

/// The largest number of packets that wait.
pub const QUEUE: usize = 32;

/// The largest number of packets that are written before a flush.
pub const BATCH: usize = 16;

/// The largest packet that counts as small.
pub const SMALL: usize = 256;

/// The number of small packets that may pass a waiting larger one.
pub const STREAK: usize = 4;

/// The longest time that a packet waits before it is worthless: 100 milliseconds.
pub const MAX_QUEUE_AGE: u64 = 100_000_000;

// ---------------------------------------------------------------- counters

/// What is counted of a relay. Counters start over after the largest value.
#[derive(Clone, Copy, Debug)]
pub struct Stats {
    /// Bytes sent to the server.
    pub tx: u64,
    /// Bytes delivered to WireGuard.
    pub rx: u64,
    pub dropped: u64,
    pub reconnects: u64,
    /// Packets lost to a full queue.
    pub queue_full: u64,
    /// Packets that waited too long.
    pub queue_expired: u64,
    /// The longest wait in the queue since the last report, in microseconds.
    pub queue_wait_us: u64,
    /// The longest write of a batch since the last report, in microseconds.
    pub write_wait_us: u64,
    /// When the last answered ping was answered, and how long that took.
    pub ws_probe: Option<(u64, u64)>,
}

pub open spec fn no_stats() -> Stats {
    Stats {
        tx: 0,
        rx: 0,
        dropped: 0,
        reconnects: 0,
        queue_full: 0,
        queue_expired: 0,
        queue_wait_us: 0,
        write_wait_us: 0,
        ws_probe: None,
    }
}

impl Default for Stats {
    fn default() -> (r: Self)
        ensures
            r == no_stats(),
    {
        Stats {
            tx: 0,
            rx: 0,
            dropped: 0,
            reconnects: 0,
            queue_full: 0,
            queue_expired: 0,
            queue_wait_us: 0,
            write_wait_us: 0,
            ws_probe: None,
        }
    }
}

/// A counter after so many more.
pub open spec fn counted(counter: u64, more: nat) -> u64 {
    ((counter + more) % 0x1_0000_0000_0000_0000) as u64
}

/// The larger of two values.
pub open spec fn larger(a: u64, b: u64) -> u64 {
    if a < b {
        b
    } else {
        a
    }
}

/// The time from one instant to another, zero where the other comes first.
pub open spec fn since(then: u64, now: u64) -> u64 {
    if then <= now {
        (now - then) as u64
    } else {
        0
    }
}

pub fn count(counter: u64, more: u64) -> (r: u64)
    ensures
        r == counted(counter, more as nat),
{
    counter.wrapping_add(more)
}

pub fn largest(a: u64, b: u64) -> (r: u64)
    ensures
        r == larger(a, b),
{
    if a < b {
        b
    } else {
        a
    }
}

pub fn elapsed(then: u64, now: u64) -> (r: u64)
    ensures
        r == since(then, now),
{
    if then <= now {
        now - then
    } else {
        0
    }
}

// ---------------------------------------------------------------- queue

/// A datagram, and when it was received.
pub struct Packet {
    pub data: Vec<u8>,
    pub received: u64,
}

#[verifier::ext_equal]
pub struct PacketView {
    pub data: Seq<u8>,
    pub received: u64,
}

impl View for Packet {
    type V = PacketView;

    open spec fn view(&self) -> PacketView {
        PacketView { data: self.data@, received: self.received }
    }
}

/// The packets that wait for the tunnel. Storage is used again across packets and reconnects.
pub struct PacketQueue {
    pub pending: VecDeque<Packet>,
    /// Storage that holds no packet.
    pub free: Vec<Vec<u8>>,
    /// Whether small packets go first.
    pub interactive: bool,
    /// How many small packets left since the last larger one.
    pub small_streak: usize,
}

#[verifier::ext_equal]
pub struct QueueView {
    pub pending: Seq<PacketView>,
    pub free: nat,
    pub interactive: bool,
    pub small_streak: nat,
}

pub open spec fn packets_view(s: Seq<Packet>) -> Seq<PacketView> {
    s.map_values(|p: Packet| p@)
}

impl View for PacketQueue {
    type V = QueueView;

    open spec fn view(&self) -> QueueView {
        QueueView {
            pending: packets_view(self.pending@),
            free: self.free@.len(),
            interactive: self.interactive,
            small_streak: self.small_streak as nat,
        }
    }
}

/// An empty queue, with storage for a full one and for a packet under way.
pub open spec fn empty_queue(interactive: bool) -> QueueView {
    QueueView { pending: seq![], free: (QUEUE + 1) as nat, interactive, small_streak: 0 }
}

/// Whether a packet is small.
pub open spec fn is_small(p: PacketView) -> bool {
    p.data.len() <= SMALL
}

/// The place of the first packet that is small, or of the first that is not; the length where
/// there is none.
pub open spec fn first_place(s: Seq<PacketView>, small: bool) -> int
    decreases s.len(),
{
    if s.len() == 0 {
        0
    } else if is_small(s[0]) == small {
        0
    } else {
        1 + first_place(s.skip(1), small)
    }
}

/// Whether a packet that is small, or one that is not, waits.
pub open spec fn waits(s: Seq<PacketView>, small: bool) -> bool {
    first_place(s, small) < s.len()
}

/// A queue after a packet arrived, and whether nothing was lost. A full queue takes a small packet
/// in place of its oldest larger one where small packets go first, and takes nothing else.
pub open spec fn after_push(q: QueueView, data: Seq<u8>, now: u64) -> (QueueView, bool) {
    let packet = PacketView { data, received: now };
    if q.pending.len() < QUEUE {
        (
            QueueView {
                pending: q.pending.push(packet),
                free: if q.free > 0 {
                    (q.free - 1) as nat
                } else {
                    0
                },
                ..q
            },
            true,
        )
    } else if q.interactive && data.len() <= SMALL && waits(q.pending, false) {
        (
            QueueView {
                pending: q.pending.remove(first_place(q.pending, false)).push(packet),
                ..q
            },
            false,
        )
    } else {
        (q, false)
    }
}

/// Which packet leaves next.
pub open spec fn next_place(q: QueueView) -> int {
    let small = q.small_streak < STREAK;
    if q.interactive && waits(q.pending, small) {
        first_place(q.pending, small)
    } else {
        0
    }
}

/// How many small packets left since the last larger one, after one more packet.
pub open spec fn next_streak(q: QueueView, p: PacketView) -> nat {
    if !q.interactive {
        q.small_streak
    } else if !is_small(p) {
        0
    } else if q.small_streak < usize::MAX {
        q.small_streak + 1
    } else {
        usize::MAX as nat
    }
}

/// The packet that leaves next.
pub open spec fn popped(q: QueueView) -> Option<PacketView> {
    if q.pending.len() == 0 {
        None
    } else {
        Some(q.pending[next_place(q)])
    }
}

/// A queue after that packet left.
pub open spec fn after_pop(q: QueueView) -> QueueView {
    if q.pending.len() == 0 {
        q
    } else {
        QueueView {
            pending: q.pending.remove(next_place(q)),
            small_streak: next_streak(q, q.pending[next_place(q)]),
            ..q
        }
    }
}

/// A queue after the storage of a packet came back.
pub open spec fn after_recycle(q: QueueView) -> QueueView {
    QueueView { free: q.free + 1, ..q }
}

/// A queue after every packet left and its storage came back.
pub open spec fn drained(q: QueueView) -> QueueView
    decreases q.pending.len(),
    via drained_decreases
{
    if q.pending.len() == 0 {
        q
    } else {
        drained(after_recycle(after_pop(q)))
    }
}

#[via_fn]
proof fn drained_decreases(q: QueueView) {
    if q.pending.len() > 0 {
        lemma_next_place(q);
    }
}

proof fn lemma_first_place(s: Seq<PacketView>, small: bool)
    ensures
        0 <= first_place(s, small) <= s.len(),
        first_place(s, small) < s.len() ==> is_small(s[first_place(s, small)]) == small,
        forall|i: int| 0 <= i < first_place(s, small) ==> is_small(#[trigger] s[i]) != small,
    decreases s.len(),
{
    if s.len() > 0 && is_small(s[0]) != small {
        let rest = s.skip(1);
        lemma_first_place(rest, small);
        assert forall|i: int| 0 <= i < first_place(s, small) implies is_small(#[trigger] s[i])
            != small by {
            if i > 0 {
                assert(rest[i - 1] == s[i]);
            }
        }
    }
}

proof fn lemma_first_place_is(s: Seq<PacketView>, small: bool, i: int)
    requires
        0 <= i <= s.len(),
        forall|j: int| 0 <= j < i ==> is_small(#[trigger] s[j]) != small,
        i < s.len() ==> is_small(s[i]) == small,
    ensures
        first_place(s, small) == i,
{
    lemma_first_place(s, small);
    let k = first_place(s, small);
    if k < i {
        assert(is_small(s[k]) == small);
    } else if i < k {
        assert(is_small(s[i]) != small);
    }
}

proof fn lemma_next_place(q: QueueView)
    requires
        q.pending.len() > 0,
    ensures
        0 <= next_place(q) < q.pending.len(),
{
    lemma_first_place(q.pending, q.small_streak < STREAK);
}

impl PacketQueue {
    /// The queue holds no more than its bound.
    pub open spec fn bounded(&self) -> bool {
        self@.pending.len() <= QUEUE
    }

    pub fn new(interactive: bool) -> (r: Self)
        ensures
            r@ == empty_queue(interactive),
    {
        let mut free: Vec<Vec<u8>> = Vec::new();
        for i in 0..QUEUE + 1
            invariant
                free@.len() == i,
        {
            free.push(Vec::with_capacity(MAX_PACKET));
        }
        let r = PacketQueue {
            pending: VecDeque::with_capacity(QUEUE),
            free,
            interactive,
            small_streak: 0,
        };
        assert(r@ =~= empty_queue(interactive));
        r
    }

    /// The place of the first packet that is small, or of the first that is not.
    fn find(&self, small: bool) -> (r: usize)
        ensures
            r == first_place(self@.pending, small),
            r <= self@.pending.len(),
    {
        let n: usize = self.pending.len();
        for i in 0..n
            invariant
                n == self.pending@.len(),
                forall|j: int| 0 <= j < i ==> is_small(#[trigger] self@.pending[j]) != small,
        {
            assert(self@.pending[i as int] == self.pending@[i as int]@);
            if (self.pending[i].data.len() <= SMALL) == small {
                proof {
                    lemma_first_place_is(self@.pending, small, i as int);
                }
                return i;
            }
        }
        proof {
            lemma_first_place_is(self@.pending, small, n as int);
        }
        n
    }

    /// Takes a packet. False where any packet was lost, whether this one or a larger one that it
    /// replaced.
    pub fn push(&mut self, bytes: &[u8], now: u64) -> (r: bool)
        requires
            old(self).bounded(),
        ensures
            (final(self)@, r) == after_push(old(self)@, bytes@, now),
            final(self).bounded(),
    {
        let dropped = self.pending.len() == QUEUE;
        let ghost before = self@;
        let mut data: Vec<u8> = Vec::new();
        if dropped {
            if !self.interactive || bytes.len() > SMALL {
                return false;
            }
            let index = self.find(false);
            match self.pending.remove(index) {
                Some(packet) => {
                    data = packet.data;
                },
                None => return false,
            }
        } else {
            match self.free.pop() {
                Some(storage) => {
                    data = storage;
                },
                // A write that was cut short can keep the storage of its packet.
                None => {
                    data = Vec::with_capacity(MAX_PACKET);
                },
            }
        }
        data.clear();
        data.extend_from_slice(bytes);
        assert(data@ =~= bytes@);
        self.pending.push_back(Packet { data, received: now });
        assert(self@.pending =~= after_push(before, bytes@, now).0.pending);
        assert(self@ =~= after_push(before, bytes@, now).0);
        !dropped
    }

    /// Hands out the next packet.
    pub fn pop(&mut self) -> (r: Option<Packet>)
        ensures
            match r {
                Some(p) => popped(old(self)@) == Some(p@),
                None => popped(old(self)@) is None,
            },
            final(self)@ == after_pop(old(self)@),
            old(self).bounded() ==> final(self).bounded(),
    {
        let ghost before = self@;
        proof {
            if before.pending.len() > 0 {
                lemma_next_place(before);
            }
        }
        if !self.interactive {
            let r = self.pending.pop_front();
            assert(r is Some ==> self@.pending =~= before.pending.remove(0));
            assert(self@ =~= after_pop(before));
            return r;
        }
        // Size is only a guess at encrypted acknowledgements, requests and handshakes.
        let small = self.small_streak < STREAK;
        let found = self.find(small);
        let index: usize = if found < self.pending.len() {
            found
        } else {
            0
        };
        match self.pending.remove(index) {
            None => None,
            Some(packet) => {
                assert(self@.pending =~= before.pending.remove(index as int));
                assert(packet@ == before.pending[index as int]);
                self.small_streak = if packet.data.len() <= SMALL {
                    self.small_streak.saturating_add(1)
                } else {
                    0
                };
                assert(self@ =~= after_pop(before));
                Some(packet)
            },
        }
    }

    /// Takes back the storage of a packet.
    pub fn recycle(&mut self, packet: Packet)
        ensures
            final(self)@ == after_recycle(old(self)@),
    {
        let mut data = packet.data;
        data.clear();
        self.free.push(data);
        assert(self@ =~= after_recycle(old(self)@));
    }

    /// Drops every packet that waits.
    pub fn discard(&mut self, stats: &mut Stats)
        ensures
            final(self)@ == drained(old(self)@),
            final(self)@.pending.len() == 0,
            *final(stats) == (Stats {
                dropped: counted(old(stats).dropped, old(self)@.pending.len()),
                ..*old(stats)
            }),
    {
        let ghost start = self@;
        let ghost counters = *stats;
        let mut more = true;
        while more
            invariant
                drained(self@) == drained(start),
                self@.pending.len() <= start.pending.len(),
                !more ==> self@.pending.len() == 0,
                *stats == (Stats {
                    dropped: counted(
                        counters.dropped,
                        (start.pending.len() - self@.pending.len()) as nat,
                    ),
                    ..counters
                }),
            decreases self@.pending.len(), (if more { 1int } else { 0 }),
        {
            let ghost before = self@;
            proof {
                if before.pending.len() > 0 {
                    lemma_next_place(before);
                }
            }
            match self.pop() {
                Some(packet) => {
                    self.recycle(packet);
                    stats.dropped = count(stats.dropped, 1);
                },
                None => {
                    more = false;
                },
            }
        }
    }
}

// ---------------------------------------------------------------- batches

/// The packets that are written before a flush.
pub struct Batch {
    /// The packet that the batch begins with, until it is looked at.
    pub first: Option<Packet>,
    /// How many packets were looked at.
    pub index: usize,
    /// The bytes of the packets that were handed out for writing.
    pub bytes: u64,
    pub started: u64,
}

#[verifier::ext_equal]
pub struct BatchView {
    pub first: Option<PacketView>,
    pub index: nat,
    pub bytes: u64,
    pub started: u64,
}

impl View for Batch {
    type V = BatchView;

    open spec fn view(&self) -> BatchView {
        BatchView {
            first: match self.first {
                Some(p) => Some(p@),
                None => None,
            },
            index: self.index as nat,
            bytes: self.bytes,
            started: self.started,
        }
    }
}

/// The counters after a packet left the queue at a given age.
pub open spec fn aged(s: Stats, age: u64) -> Stats {
    let s = Stats { queue_wait_us: larger(s.queue_wait_us, age / 1000), ..s };
    if age > MAX_QUEUE_AGE {
        Stats { dropped: counted(s.dropped, 1), queue_expired: counted(s.queue_expired, 1), ..s }
    } else {
        s
    }
}

/// What a batch, its queue and the counters are when the next packet is to be written, and that
/// packet; none where the batch is to be flushed. A packet that waited too long is dropped.
pub open spec fn batch_step(b: BatchView, q: QueueView, s: Stats, now: u64) -> (
    BatchView,
    QueueView,
    Stats,
    Option<PacketView>,
)
    decreases BATCH - b.index,
{
    if b.index >= BATCH {
        (b, q, s, None)
    } else {
        let (packet, rest) = if b.index == 0 {
            (b.first, q)
        } else {
            (popped(q), after_pop(q))
        };
        let looked = BatchView { first: None, index: b.index + 1, ..b };
        match packet {
            None => (looked, rest, s, None),
            Some(p) => {
                let age = since(p.received, now);
                if age > MAX_QUEUE_AGE {
                    batch_step(looked, after_recycle(rest), aged(s, age), now)
                } else {
                    (
                        BatchView { bytes: counted(b.bytes, p.data.len()), ..looked },
                        rest,
                        aged(s, age),
                        Some(p),
                    )
                }
            },
        }
    }
}

impl Batch {
    /// A batch that begins with a packet.
    pub fn new(first: Packet, now: u64) -> (r: Self)
        ensures
            r@ == (BatchView { first: Some(first@), index: 0, bytes: 0, started: now }),
    {
        Batch { first: Some(first), index: 0, bytes: 0, started: now }
    }

    /// The next packet to write; none where the batch is to be flushed. The storage of a packet
    /// goes back to the queue once it is written.
    pub fn next(&mut self, queue: &mut PacketQueue, stats: &mut Stats, now: u64) -> (r: Option<
        Packet,
    >)
        ensures
            match r {
                Some(p) => batch_step(old(self)@, old(queue)@, *old(stats), now) == (
                    final(self)@,
                    final(queue)@,
                    *final(stats),
                    Some(p@),
                ),
                None => batch_step(old(self)@, old(queue)@, *old(stats), now) == (
                    final(self)@,
                    final(queue)@,
                    *final(stats),
                    None::<PacketView>,
                ),
            },
            old(queue).bounded() ==> final(queue).bounded(),
    {
        let ghost goal = batch_step(self@, queue@, *stats, now);
        while self.index < BATCH
            invariant
                goal == batch_step(old(self)@, old(queue)@, *old(stats), now),
                batch_step(self@, queue@, *stats, now) == goal,
                old(queue).bounded() ==> queue.bounded(),
            decreases BATCH - self.index,
        {
            let ghost before = self@;
            let packet = if self.index == 0 {
                self.first.take()
            } else {
                self.first = None;
                queue.pop()
            };
            self.index = self.index + 1;
            assert(self@ =~= (BatchView { first: None, index: before.index + 1, ..before }));
            match packet {
                None => {
                    return None;
                },
                Some(p) => {
                    let age = elapsed(p.received, now);
                    stats.queue_wait_us = largest(stats.queue_wait_us, age / 1000);
                    if age > MAX_QUEUE_AGE {
                        stats.dropped = count(stats.dropped, 1);
                        stats.queue_expired = count(stats.queue_expired, 1);
                        queue.recycle(p);
                    } else {
                        self.bytes = count(self.bytes, p.data.len() as u64);
                        return Some(p);
                    }
                },
            }
        }
        None
    }

    /// Counts a batch that was flushed.
    pub fn finish(&self, stats: &mut Stats, now: u64)
        ensures
            *final(stats) == (Stats {
                write_wait_us: larger(old(stats).write_wait_us, since(self@.started, now) / 1000),
                tx: counted(old(stats).tx, self@.bytes as nat),
                ..*old(stats)
            }),
    {
        stats.write_wait_us = largest(stats.write_wait_us, elapsed(self.started, now) / 1000);
        stats.tx = count(stats.tx, self.bytes);
    }
}

// ---------------------------------------------------------------- laws

/// What can happen to a queue.
pub enum Event {
    Push(Seq<u8>, u64),
    Pop,
    Recycle,
}

pub open spec fn after_event(q: QueueView, e: Event) -> QueueView {
    match e {
        Event::Push(data, now) => after_push(q, data, now).0,
        Event::Pop => after_pop(q),
        Event::Recycle => after_recycle(q),
    }
}

/// A queue after a number of events.
pub open spec fn after_events(q: QueueView, all: Seq<Event>) -> QueueView
    decreases all.len(),
{
    if all.len() == 0 {
        q
    } else {
        after_event(after_events(q, all.drop_last()), all.last())
    }
}

/// The packets that leave during a number of events.
pub open spec fn departed(q: QueueView, all: Seq<Event>) -> Seq<PacketView>
    decreases all.len(),
{
    if all.len() == 0 {
        seq![]
    } else {
        let before = departed(q, all.drop_last());
        match (all.last(), popped(after_events(q, all.drop_last()))) {
            (Event::Pop, Some(p)) => before.push(p),
            _ => before,
        }
    }
}

/// The packets of one class, in their order.
pub open spec fn of_class(s: Seq<PacketView>, small: bool) -> Seq<PacketView>
    decreases s.len(),
{
    if s.len() == 0 {
        seq![]
    } else if is_small(s[0]) == small {
        seq![s[0]] + of_class(s.skip(1), small)
    } else {
        of_class(s.skip(1), small)
    }
}

/// Whatever arrives, no more than 32 packets wait.
pub proof fn queue_is_bounded(interactive: bool, all: Seq<Event>)
    ensures
        after_events(empty_queue(interactive), all).pending.len() <= QUEUE,
    decreases all.len(),
{
    if all.len() > 0 {
        queue_is_bounded(interactive, all.drop_last());
        let q = after_events(empty_queue(interactive), all.drop_last());
        lemma_first_place(q.pending, false);
        if q.pending.len() > 0 {
            lemma_next_place(q);
        }
    }
}

proof fn lemma_class_remove(s: Seq<PacketView>, small: bool)
    requires
        waits(s, small),
    ensures
        of_class(s, small).len() > 0,
        of_class(s, small)[0] == s[first_place(s, small)],
        of_class(s.remove(first_place(s, small)), small) == of_class(s, small).skip(1),
        of_class(s.remove(first_place(s, small)), !small) == of_class(s, !small),
    decreases s.len(),
{
    lemma_first_place(s, small);
    let i = first_place(s, small);
    let rest = s.skip(1);
    if is_small(s[0]) == small {
        assert(s.remove(0) =~= rest);
        assert(of_class(s, small).skip(1) =~= of_class(rest, small));
    } else {
        lemma_class_remove(rest, small);
        assert(s.remove(i)[0] == s[0]);
        assert(s.remove(i).skip(1) =~= rest.remove(i - 1));
        assert(rest[i - 1] == s[i]);
    }
}

proof fn lemma_class_push(s: Seq<PacketView>, p: PacketView, small: bool)
    ensures
        of_class(s.push(p), small) == if is_small(p) == small {
            of_class(s, small).push(p)
        } else {
            of_class(s, small)
        },
    decreases s.len(),
{
    if s.len() == 0 {
        assert(s.push(p).skip(1) =~= s);
        assert(of_class(s.push(p).skip(1), small) =~= seq![]);
    } else {
        lemma_class_push(s.skip(1), p, small);
        assert(s.push(p).skip(1) =~= s.skip(1).push(p));
        if is_small(p) == small && is_small(s[0]) == small {
            assert(seq![s[0]] + of_class(s.skip(1), small).push(p) =~= (seq![s[0]] + of_class(
                s.skip(1),
                small,
            )).push(p));
        }
    }
}

proof fn lemma_next_is_first_of_its_class(q: QueueView)
    requires
        q.pending.len() > 0,
    ensures
        0 <= next_place(q) < q.pending.len(),
        next_place(q) == first_place(q.pending, is_small(q.pending[next_place(q)])),
{
    lemma_next_place(q);
    lemma_first_place(q.pending, q.small_streak < STREAK);
}

/// A packet that leaves is the oldest of its class, and leaves the others in their order.
pub proof fn each_class_is_first_in_first_out(q: QueueView)
    requires
        q.pending.len() > 0,
    ensures
        popped(q) matches Some(p) && {
            let small = is_small(p);
            &&& of_class(q.pending, small).len() > 0
            &&& p == of_class(q.pending, small)[0]
            &&& of_class(after_pop(q).pending, small) == of_class(q.pending, small).skip(1)
            &&& of_class(after_pop(q).pending, !small) == of_class(q.pending, !small)
        },
{
    lemma_next_is_first_of_its_class(q);
    lemma_class_remove(q.pending, is_small(q.pending[next_place(q)]));
}

/// A packet that is taken goes behind the others of its class. A small one that finds the queue
/// full replaces the oldest larger one, and no other.
pub proof fn arrivals_go_last(q: QueueView, data: Seq<u8>, now: u64)
    ensures
        ({
            let p = PacketView { data, received: now };
            let after = after_push(q, data, now).0.pending;
            ||| after == q.pending && q.pending.len() >= QUEUE
            ||| {
                &&& q.pending.len() < QUEUE
                &&& of_class(after, is_small(p)) == of_class(q.pending, is_small(p)).push(p)
                &&& of_class(after, !is_small(p)) == of_class(q.pending, !is_small(p))
            }
            ||| {
                &&& q.pending.len() >= QUEUE && q.interactive && is_small(p)
                &&& of_class(after, true) == of_class(q.pending, true).push(p)
                &&& of_class(after, false) == of_class(q.pending, false).skip(1)
            }
        }),
{
    let p = PacketView { data, received: now };
    lemma_class_push(q.pending, p, true);
    lemma_class_push(q.pending, p, false);
    if waits(q.pending, false) {
        let rest = q.pending.remove(first_place(q.pending, false));
        lemma_class_remove(q.pending, false);
        lemma_class_push(rest, p, true);
        lemma_class_push(rest, p, false);
    }
}

/// Without priorities packets leave in the order of their arrival.
pub proof fn balanced_is_first_in_first_out(q: QueueView)
    requires
        !q.interactive,
        q.pending.len() > 0,
    ensures
        popped(q) == Some(q.pending[0]),
        after_pop(q).pending == q.pending.skip(1),
{
    assert(q.pending.remove(0) =~= q.pending.skip(1));
}

proof fn lemma_streak(q: QueueView, all: Seq<Event>)
    requires
        q.interactive,
        forall|i: int| 0 <= i < departed(q, all).len() ==> is_small(#[trigger] departed(q, all)[i]),
    ensures
        after_events(q, all).interactive,
        after_events(q, all).small_streak >= departed(q, all).len() || after_events(
            q,
            all,
        ).small_streak >= STREAK,
    decreases all.len(),
{
    if all.len() > 0 {
        let before = all.drop_last();
        let state = after_events(q, before);
        assert forall|i: int| 0 <= i < departed(q, before).len() implies is_small(
            #[trigger] departed(q, before)[i],
        ) by {
            assert(departed(q, all)[i] == departed(q, before)[i]);
        }
        lemma_streak(q, before);
        if all.last() is Pop && state.pending.len() > 0 {
            lemma_next_place(state);
            let p = state.pending[next_place(state)];
            assert(departed(q, all)[departed(q, before).len() as int] == p);
        }
    }
}

/// However small packets keep arriving, no more than four of them leave in a row while a larger
/// one waits.
pub proof fn larger_packets_make_progress(q: QueueView, all: Seq<Event>)
    requires
        q.interactive,
        departed(q, all).len() >= STREAK,
        forall|i: int| 0 <= i < departed(q, all).len() ==> is_small(#[trigger] departed(q, all)[i]),
        waits(after_events(q, all).pending, false),
    ensures
        popped(after_events(q, all)) matches Some(p) && !is_small(p),
{
    lemma_streak(q, all);
    let state = after_events(q, all);
    lemma_first_place(state.pending, false);
}

/// A small packet passes larger ones unless four have done so in a row.
pub proof fn small_packets_go_first(q: QueueView)
    requires
        q.interactive,
        q.small_streak < STREAK,
        waits(q.pending, true),
    ensures
        popped(q) matches Some(p) && is_small(p),
{
    lemma_first_place(q.pending, true);
}

/// Storage is neither lost nor added as packets come and go: what waits and what is free stay as
/// many together, but for the one packet that is under way between leaving and coming back.
pub proof fn storage_is_reused(q: QueueView, data: Seq<u8>, now: u64)
    requires
        q.free > 0,
    ensures
        ({
            let after = after_push(q, data, now).0;
            after.pending.len() + after.free == q.pending.len() + q.free
        }),
        q.pending.len() > 0 ==> {
            let after = after_recycle(after_pop(q));
            after.pending.len() + after.free == q.pending.len() + q.free
        },
{
    lemma_first_place(q.pending, false);
    if q.pending.len() > 0 {
        lemma_next_place(q);
    }
}

/// Dropping every packet gives all storage back.
pub proof fn discarding_frees_storage(q: QueueView)
    ensures
        drained(q).pending.len() == 0,
        drained(q).free == q.free + q.pending.len(),
        drained(q).interactive == q.interactive,
    decreases q.pending.len(),
{
    if q.pending.len() > 0 {
        lemma_next_place(q);
        discarding_frees_storage(after_recycle(after_pop(q)));
    }
}

/// A packet that is handed out for writing waited no longer than its time, and a batch hands out
/// no more than 16.
pub proof fn batches_are_fresh_and_bounded(b: BatchView, q: QueueView, s: Stats, now: u64)
    requires
        b.index <= BATCH,
    ensures
        ({
            let (after, rest, counters, packet) = batch_step(b, q, s, now);
            &&& b.index <= after.index <= BATCH
            &&& packet matches Some(p) ==> since(p.received, now) <= MAX_QUEUE_AGE && b.index
                < after.index && after.bytes == counted(b.bytes, p.data.len())
            &&& packet is None ==> after.bytes == b.bytes
            &&& rest.pending.len() <= q.pending.len()
        }),
    decreases BATCH - b.index,
{
    if b.index < BATCH {
        if q.pending.len() > 0 {
            lemma_next_place(q);
        }
        let (packet, rest) = if b.index == 0 {
            (b.first, q)
        } else {
            (popped(q), after_pop(q))
        };
        let looked = BatchView { first: None, index: b.index + 1, ..b };
        if let Some(p) = packet {
            let age = since(p.received, now);
            if age > MAX_QUEUE_AGE {
                batches_are_fresh_and_bounded(looked, after_recycle(rest), aged(s, age), now);
            }
        }
    }
}

/// Whether four packets in a row, each of 256 bytes or less, were the last to leave.
pub open spec fn four_small_left(gone: Seq<PacketView>) -> bool {
    gone.len() >= 4 && forall|i: int|
        gone.len() - 4 <= i < gone.len() ==> (#[trigger] gone[i]).data.len() <= 256
}

/// The streak counts the small packets at the end of what left, and none before them.
proof fn lemma_streak_is_the_tail(interactive: bool, all: Seq<Event>)
    ensures
        ({
            let q = after_events(empty_queue(interactive), all);
            let gone = departed(empty_queue(interactive), all);
            &&& q.interactive == interactive
            &&& interactive ==> q.small_streak <= gone.len()
            &&& interactive ==> forall|i: int|
                gone.len() - q.small_streak <= i < gone.len() ==> is_small(#[trigger] gone[i])
            &&& interactive && q.small_streak < usize::MAX && q.small_streak < gone.len()
                ==> !is_small(gone[gone.len() - q.small_streak - 1])
        }),
    decreases all.len(),
{
    if all.len() > 0 {
        let before = all.drop_last();
        lemma_streak_is_the_tail(interactive, before);
        let state = after_events(empty_queue(interactive), before);
        if all.last() is Pop && state.pending.len() > 0 {
            lemma_next_place(state);
            let gone = departed(empty_queue(interactive), before);
            let p = state.pending[next_place(state)];
            assert(departed(empty_queue(interactive), all) == gone.push(p));
        }
    }
}

/// In an interactive queue, after whatever arrived and left: a packet of 256 bytes or less leaves
/// next wherever one waits, unless the four that left last were all as small; then a larger one
/// leaves next wherever one waits. So a larger packet passes a waiting small one only behind four
/// small ones in a row. Of the packets of its size, the one that came first leaves, and the others
/// stay in their order.
pub proof fn small_packets_leave_first_but_four_in_a_row(all: Seq<Event>)
    ensures
        ({
            let q = after_events(empty_queue(true), all);
            let gone = departed(empty_queue(true), all);
            let turn = four_small_left(gone);
            &&& q.pending.len() == 0 <==> popped(q) is None
            &&& popped(q) matches Some(p) ==> {
                &&& !turn && (exists|i: int|
                    0 <= i < q.pending.len() && (#[trigger] q.pending[i]).data.len() <= 256)
                    ==> p.data.len() <= 256
                &&& turn && (exists|i: int|
                    0 <= i < q.pending.len() && (#[trigger] q.pending[i]).data.len() > 256)
                    ==> p.data.len() > 256
                &&& leaves_in_order(q.pending, p, after_pop(q).pending)
            }
        }),
{
    lemma_streak_is_the_tail(true, all);
    let q = after_events(empty_queue(true), all);
    let gone = departed(empty_queue(true), all);
    let small = q.small_streak < STREAK;
    if four_small_left(gone) && small {
        assert(is_small(gone[gone.len() - q.small_streak - 1]));
    }
    if !four_small_left(gone) && !small {
        assert forall|i: int| gone.len() - 4 <= i < gone.len() implies (
        #[trigger] gone[i]).data.len() <= 256 by {
            assert(is_small(gone[i]));
        }
    }
    if q.pending.len() > 0 {
        lemma_next_is_first_of_its_class(q);
        lemma_first_place(q.pending, true);
        lemma_first_place(q.pending, false);
        let at = next_place(q);
        assert forall|i: int| 0 <= i < at implies ((#[trigger] q.pending[i]).data.len() <= 256) != (
        q.pending[at].data.len() <= 256) by {
            assert(is_small(q.pending[i]) != is_small(q.pending[at]));
        }
        assert(leaves_at(q.pending, q.pending[at], after_pop(q).pending, at));
    }
}

/// Whether a packet leaves from a place, and is the first of its size: no earlier one is small
/// where it is, or larger where it is.
pub open spec fn leaves_at(
    before: Seq<PacketView>,
    p: PacketView,
    after: Seq<PacketView>,
    at: int,
) -> bool {
    &&& 0 <= at < before.len()
    &&& p == before[at]
    &&& after == before.remove(at)
    &&& forall|i: int|
        0 <= i < at ==> ((#[trigger] before[i]).data.len() <= 256) != (p.data.len() <= 256)
}

/// Whether a packet leaves that came first of those of its size, and the others stay as they are.
pub open spec fn leaves_in_order(
    before: Seq<PacketView>,
    p: PacketView,
    after: Seq<PacketView>,
) -> bool {
    exists|at: int| leaves_at(before, p, after, at)
}

/// Whether a packet takes the place of the first larger one that waits.
pub open spec fn replaces_at(
    before: Seq<PacketView>,
    p: PacketView,
    after: Seq<PacketView>,
    at: int,
) -> bool {
    &&& 0 <= at < before.len()
    &&& before[at].data.len() > 256
    &&& forall|i: int| 0 <= i < at ==> (#[trigger] before[i]).data.len() <= 256
    &&& after == before.remove(at).push(p)
}

/// Fewer than 32 packets: what arrives waits last, and nothing is lost. A queue of 32 loses one
/// packet with each that arrives: in an interactive queue a packet of 256 bytes or less pushes out
/// the first larger one and waits last; any other is lost itself.
pub proof fn arrivals_wait_last_or_one_is_lost(q: QueueView, data: Seq<u8>, now: u64)
    ensures
        ({
            let p = PacketView { data, received: now };
            let (after, kept) = after_push(q, data, now);
            let gives_way = q.interactive && data.len() <= 256 && exists|i: int|
                0 <= i < q.pending.len() && (#[trigger] q.pending[i]).data.len() > 256;
            &&& kept == (q.pending.len() < 32)
            &&& kept ==> after.pending == q.pending.push(p)
            &&& !kept && gives_way ==> exists|at: int| replaces_at(q.pending, p, after.pending, at)
            &&& !kept && !gives_way ==> after == q
            &&& after.interactive == q.interactive
            &&& after.small_streak == q.small_streak
        }),
{
    let p = PacketView { data, received: now };
    lemma_first_place(q.pending, false);
    let at = first_place(q.pending, false);
    let after = after_push(q, data, now).0;
    assert forall|i: int| 0 <= i < at implies (#[trigger] q.pending[i]).data.len() <= 256 by {
        assert(is_small(q.pending[i]));
    }
    if exists|i: int| 0 <= i < q.pending.len() && (#[trigger] q.pending[i]).data.len() > 256 {
        let i = choose|i: int|
            0 <= i < q.pending.len() && (#[trigger] q.pending[i]).data.len() > 256;
        assert(!is_small(q.pending[i]));
        assert(at < q.pending.len());
        if q.interactive && data.len() <= 256 && q.pending.len() >= 32 {
            assert(replaces_at(q.pending, p, after.pending, at));
        }
    } else if at < q.pending.len() {
        assert(q.pending[at].data.len() > 256);
    }
}

/// Whether a packet waited no longer than 100 milliseconds at an instant.
pub open spec fn is_fresh(p: PacketView, now: u64) -> bool {
    now - p.received <= 100_000_000
}

/// Of what is left of a batch and its queue, whether each packet is fresh, or each is not.
pub open spec fn all_fresh(b: BatchView, q: QueueView, now: u64, fresh: bool) -> bool {
    &&& b.index == 0 ==> (b.first matches Some(p) ==> is_fresh(p, now) == fresh)
    &&& forall|i: int| 0 <= i < q.pending.len() ==> is_fresh(#[trigger] q.pending[i], now) == fresh
}

/// How many packets a batch and its queue hold.
pub open spec fn held(b: BatchView, q: QueueView) -> nat {
    q.pending.len() + if b.index == 0 && b.first is Some {
        1nat
    } else {
        0
    }
}

/// Counters add up.
proof fn lemma_counted_adds(counter: u64, a: nat, b: nat)
    ensures
        counted(counted(counter, a), b) == counted(counter, a + b),
{
    let m = 0x1_0000_0000_0000_0000int;
    vstd::arithmetic::div_mod::lemma_add_mod_noop((counter + a) as int, b as int, m);
    vstd::arithmetic::div_mod::lemma_mod_bound((counter + a) as int, m);
    vstd::arithmetic::div_mod::lemma_mod_bound((counter + a + b) as int, m);
    vstd::arithmetic::div_mod::lemma_mod_twice((counter + a) as int, m);
    assert(counted(counter, a) as int == (counter + a) as int % m);
    vstd::arithmetic::div_mod::lemma_add_mod_noop_right(b as int, (counter + a) as int, m);
}

/// A counter that did not reach its end is larger by what was counted.
pub proof fn counters_add_up(counter: u64, more: nat)
    ensures
        counter + more <= u64::MAX ==> counted(counter, more) == counter + more,
        forall|other: nat| counted(#[trigger] counted(counter, more), other) == counted(
            counter,
            more + other,
        ),
{
    assert forall|other: nat| counted(#[trigger] counted(counter, more), other) == counted(
        counter,
        more + other,
    ) by {
        lemma_counted_adds(counter, more, other);
    }
}

/// A batch hands out the first packet that is fresh, of the one that it begins with and those that
/// leave the queue, and counts its bytes. One that is not fresh is never handed out.
pub proof fn batches_hand_out_what_is_fresh(b: BatchView, q: QueueView, s: Stats, now: u64)
    requires
        b.index <= 16,
    ensures
        ({
            let (after, rest, counters, packet) = batch_step(b, q, s, now);
            &&& packet matches Some(p) ==> is_fresh(p, now) && after.bytes == counted(
                b.bytes,
                p.data.len(),
            )
            &&& packet is None ==> after.bytes == b.bytes
            &&& after.started == b.started
            &&& b.index == 0 && (b.first matches Some(p) && is_fresh(p, now)) ==> packet == b.first
                && rest == q
            &&& 0 < b.index < 16 && (popped(q) matches Some(p) && is_fresh(p, now)) ==> packet
                == popped(q) && rest == after_pop(q)
            &&& b.index == 16 ==> packet is None && (after, rest, counters) == (b, q, s)
            &&& b.index <= after.index <= 16
            &&& packet is None ==> after.index == 16 || rest.pending.len() == 0 || (b.index == 0
                && b.first is None)
        }),
    decreases 16 - b.index,
{
    if b.index < 16 {
        let (packet, rest) = if b.index == 0 {
            (b.first, q)
        } else {
            (popped(q), after_pop(q))
        };
        let looked = BatchView { first: None, index: b.index + 1, ..b };
        if let Some(p) = packet {
            let age = since(p.received, now);
            if age > MAX_QUEUE_AGE {
                batches_hand_out_what_is_fresh(looked, after_recycle(rest), aged(s, age), now);
            }
        }
    }
}

/// No packet is lost in a batch but those that are not fresh: each is counted as dropped and as
/// expired, and nothing else is. Where all are fresh none is lost, and where none is fresh none is
/// handed out.
pub proof fn batches_count_what_is_lost(b: BatchView, q: QueueView, s: Stats, now: u64)
    requires
        b.index <= 16,
    ensures
        ({
            let (after, rest, counters, packet) = batch_step(b, q, s, now);
            let given: nat = if packet is Some {
                1
            } else {
                0
            };
            &&& held(after, rest) + given <= held(b, q)
            &&& counters.dropped == counted(
                s.dropped,
                (held(b, q) - held(after, rest) - given) as nat,
            )
            &&& counters.queue_expired == counted(
                s.queue_expired,
                (held(b, q) - held(after, rest) - given) as nat,
            )
            &&& counters == (Stats {
                dropped: counters.dropped,
                queue_expired: counters.queue_expired,
                queue_wait_us: counters.queue_wait_us,
                ..s
            })
            &&& all_fresh(b, q, now, true) ==> held(b, q) == held(after, rest) + given && (packet
                is Some <==> b.index < 16 && (b.index == 0 ==> b.first is Some) && held(b, q) > 0)
            &&& all_fresh(b, q, now, false) ==> packet is None
        }),
    decreases 16 - b.index,
{
    if b.index < 16 {
        if q.pending.len() > 0 {
            lemma_next_place(q);
        }
        let (packet, rest) = if b.index == 0 {
            (b.first, q)
        } else {
            (popped(q), after_pop(q))
        };
        let looked = BatchView { first: None, index: b.index + 1, ..b };
        if let Some(p) = packet {
            assert(b.index > 0 ==> p == q.pending[next_place(q)]);
            let age = since(p.received, now);
            assert(is_fresh(p, now) <==> age <= MAX_QUEUE_AGE);
            if age > MAX_QUEUE_AGE {
                let next = after_recycle(rest);
                batches_count_what_is_lost(looked, next, aged(s, age), now);
                let (after, left, counters, out) = batch_step(looked, next, aged(s, age), now);
                let given: nat = if out is Some {
                    1
                } else {
                    0
                };
                let more = (held(looked, next) - held(after, left) - given) as nat;
                lemma_counted_adds(s.dropped, 1, more);
                lemma_counted_adds(s.queue_expired, 1, more);
                assert(held(b, q) == held(looked, next) + 1);
                if all_fresh(b, q, now, false) {
                    assert forall|i: int| 0 <= i < next.pending.len() implies is_fresh(
                        #[trigger] next.pending[i],
                        now,
                    ) == false by {
                        if b.index > 0 {
                            let at = next_place(q);
                            let from = if i < at {
                                i
                            } else {
                                i + 1
                            };
                            assert(next.pending[i] == q.pending[from]);
                        }
                    }
                }
            } else {
                lemma_counted_none(s.dropped);
                lemma_counted_none(s.queue_expired);
            }
        } else {
            lemma_counted_none(s.dropped);
            lemma_counted_none(s.queue_expired);
        }
    } else {
        lemma_counted_none(s.dropped);
        lemma_counted_none(s.queue_expired);
    }
}

proof fn lemma_counted_none(counter: u64)
    ensures
        counted(counter, 0) == counter,
{
}

/// The longest wait that is told is the largest of those that were measured, in whole
/// microseconds, for packets that leave in time and for those that do not.
pub proof fn longest_waits_are_kept(b: BatchView, q: QueueView, s: Stats, now: u64)
    requires
        b.index == 0,
        b.first matches Some(p) && p.received <= now,
    ensures
        ({
            let counters = batch_step(b, q, s, now).2;
            &&& counters.queue_wait_us >= s.queue_wait_us
            &&& counters.queue_wait_us >= (now - b.first->0.received) / 1000
            &&& is_fresh(b.first->0, now) ==> counters.queue_wait_us == s.queue_wait_us
                || counters.queue_wait_us == (now - b.first->0.received) / 1000
        }),
{
    lemma_waits_grow(b, q, s, now);
    let p = b.first->0;
    let looked = BatchView { first: None, index: 1, ..b };
    let age = since(p.received, now);
    if age > MAX_QUEUE_AGE {
        lemma_waits_grow(looked, after_recycle(q), aged(s, age), now);
    }
}

proof fn lemma_waits_grow(b: BatchView, q: QueueView, s: Stats, now: u64)
    ensures
        batch_step(b, q, s, now).2.queue_wait_us >= s.queue_wait_us,
    decreases BATCH - b.index,
{
    if b.index < BATCH {
        let (packet, rest) = if b.index == 0 {
            (b.first, q)
        } else {
            (popped(q), after_pop(q))
        };
        let looked = BatchView { first: None, index: b.index + 1, ..b };
        if let Some(p) = packet {
            let age = since(p.received, now);
            if age > MAX_QUEUE_AGE {
                lemma_waits_grow(looked, after_recycle(rest), aged(s, age), now);
            }
        }
    }
}

/// The time from one instant to a later one is their distance, and nothing where it is no later; the
/// larger of two values is one of them, and neither exceeds it.
pub proof fn times_and_maxima(a: u64, b: u64)
    ensures
        a <= b ==> since(a, b) == b - a,
        a >= b ==> since(a, b) == 0,
        larger(a, b) >= a && larger(a, b) >= b,
        larger(a, b) == a || larger(a, b) == b,
{
}

/// A new queue holds nothing, and storage for 33 packets.
pub proof fn new_queues_are_empty(interactive: bool)
    ensures
        empty_queue(interactive).pending.len() == 0,
        empty_queue(interactive).free == 33,
        empty_queue(interactive).interactive == interactive,
        empty_queue(interactive).small_streak == 0,
{
}

/// The bounds of the queue: packets of 2048 bytes, 32 that wait, 16 in a batch, 256 bytes for a small
/// one, four of these in a row, and 100 milliseconds of waiting.
pub proof fn bounds_of_the_queue()
    ensures
        MAX_PACKET == 2048,
        QUEUE == 32,
        BATCH == 16,
        SMALL == 256,
        STREAK == 4,
        MAX_QUEUE_AGE == 100_000_000,
{
}

} // verus!
