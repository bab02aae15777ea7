//! What the relay decides: which datagrams it takes, what it does with each frame, when it pings,
//! how long it waits before it connects again, and what it reports.
//!
//! Instants are nanoseconds on the clock of the relay.
use crate::config::LatencyMode;
use crate::logging::Status;
use crate::net::{same_socket, SocketAddr};
use crate::numbers::{decimal, push_decimal};
use crate::transport::{
    after_push, count, counted, drained, elapsed, since, PacketQueue, QueueView, Stats, BATCH,
    MAX_PACKET,
};
use vstd::arithmetic::div_mod::lemma_div_denominator;
use vstd::arithmetic::power2::pow2;
use vstd::prelude::*;

verus! {

/// The time without a frame after which the server counts as gone: 45 seconds.
pub const HEARTBEAT: u64 = 45_000_000_000;

/// The time after which a session counts as stable: 30 seconds.
pub const STABLE: u64 = 30_000_000_000;

/// The longest pause before a connection is tried again, in seconds.
pub const MAX_BACKOFF: u64 = 30;

// ---------------------------------------------------------------- probes

/// The bytes of a number, the most significant first.
pub open spec fn big_endian(n: u64) -> Seq<u8> {
    seq![
        (n / 0x100_0000_0000_0000) as u8,
        (n / 0x1_0000_0000_0000 % 0x100) as u8,
        (n / 0x100_0000_0000 % 0x100) as u8,
        (n / 0x1_0000_0000 % 0x100) as u8,
        (n / 0x100_0000 % 0x100) as u8,
        (n / 0x1_0000 % 0x100) as u8,
        (n / 0x100 % 0x100) as u8,
        (n % 0x100) as u8,
    ]
}

fn big_endian_bytes(n: u64) -> (r: Vec<u8>)
    ensures
        r@ == big_endian(n),
{
    let mut out: Vec<u8> = Vec::new();
    out.push((n / 0x100_0000_0000_0000) as u8);
    out.push((n / 0x1_0000_0000_0000 % 0x100) as u8);
    out.push((n / 0x100_0000_0000 % 0x100) as u8);
    out.push((n / 0x1_0000_0000 % 0x100) as u8);
    out.push((n / 0x100_0000 % 0x100) as u8);
    out.push((n / 0x1_0000 % 0x100) as u8);
    out.push((n / 0x100 % 0x100) as u8);
    out.push((n % 0x100) as u8);
    assert(out@ =~= big_endian(n));
    out
}

/// Two numbers with the same bytes are the same number.
pub proof fn big_endian_tells_numbers_apart(a: u64, b: u64)
    requires
        big_endian(a) == big_endian(b),
    ensures
        a == b,
{
    let x = big_endian(a);
    let y = big_endian(b);
    assert(x[0] == y[0] && x[1] == y[1] && x[2] == y[2] && x[3] == y[3]);
    assert(x[4] == y[4] && x[5] == y[5] && x[6] == y[6] && x[7] == y[7]);
    assert(a == b) by (bit_vector)
        requires
            a / 0x100_0000_0000_0000u64 == b / 0x100_0000_0000_0000u64,
            (a / 0x1_0000_0000_0000u64) % 0x100u64 == (b / 0x1_0000_0000_0000u64) % 0x100u64,
            (a / 0x100_0000_0000u64) % 0x100u64 == (b / 0x100_0000_0000u64) % 0x100u64,
            (a / 0x1_0000_0000u64) % 0x100u64 == (b / 0x1_0000_0000u64) % 0x100u64,
            (a / 0x100_0000u64) % 0x100u64 == (b / 0x100_0000u64) % 0x100u64,
            (a / 0x1_0000u64) % 0x100u64 == (b / 0x1_0000u64) % 0x100u64,
            (a / 0x100u64) % 0x100u64 == (b / 0x100u64) % 0x100u64,
            a % 0x100u64 == b % 0x100u64,
    ;
}

/// What is left of a ping that waits for its answer, and how long the answer took. Only the bytes
/// of the ping's own number answer it.
pub open spec fn probed(probe: Option<(u64, u64)>, payload: Seq<u8>, now: u64) -> (
    Option<(u64, u64)>,
    Option<u64>,
) {
    match probe {
        Some((sequence, sent)) => if payload == big_endian(sequence) {
            (None, Some(since(sent, now)))
        } else {
            (probe, None)
        },
        None => (None, None),
    }
}

fn same_bytes(a: &[u8], b: &[u8]) -> (r: bool)
    ensures
        r == (a@ == b@),
{
    if a.len() != b.len() {
        return false;
    }
    for i in 0..a.len()
        invariant
            a.len() == b.len(),
            forall|j: int| 0 <= j < i ==> a@[j] == b@[j],
    {
        if a[i] != b[i] {
            assert(a@[i as int] != b@[i as int]);
            return false;
        }
    }
    assert(a@ =~= b@);
    true
}

/// Takes the answer to a ping, and says how long it took.
pub fn accept_probe(probe: &mut Option<(u64, u64)>, payload: &[u8], now: u64) -> (r: Option<u64>)
    ensures
        (*final(probe), r) == probed(*old(probe), payload@, now),
{
    match *probe {
        Some((sequence, sent)) => {
            let expected = big_endian_bytes(sequence);
            if same_bytes(payload, &expected) {
                *probe = None;
                Some(elapsed(sent, now))
            } else {
                None
            }
        },
        None => None,
    }
}

/// A ping is answered once: what answered it does not answer anything again.
pub proof fn probe_is_answered_once(probe: Option<(u64, u64)>, payload: Seq<u8>, now: u64, later: u64)
    requires
        probed(probe, payload, now).1 is Some,
    ensures
        probed(probed(probe, payload, now).0, payload, later).1 is None,
{
}

/// An answer to another ping leaves the ping waiting.
pub proof fn unrelated_answers_are_ignored(sequence: u64, other: u64, sent: u64, now: u64)
    requires
        sequence != other,
    ensures
        probed(Some((sequence, sent)), big_endian(other), now) == (
            Some((sequence, sent)),
            None::<u64>,
        ),
{
    if big_endian(sequence) == big_endian(other) {
        big_endian_tells_numbers_apart(sequence, other);
    }
}

// ---------------------------------------------------------------- sessions

/// The kinds of frames.
#[derive(Clone, Copy, PartialEq, Eq, Structural, Debug)]
pub enum Opcode {
    Binary,
    Ping,
    Pong,
    Close,
    Other,
}

/// What is to be done with a frame.
#[derive(Clone, Copy, Debug)]
pub enum Incoming {
    /// Send its payload to WireGuard.
    Deliver(SocketAddr),
    /// Answer with its payload.
    Answer,
    Nothing,
}

/// Why a session ends.
#[derive(Clone, Copy, PartialEq, Eq, Structural, Debug)]
pub enum SessionError {
    Fragmented,
    Closed,
    Unexpected,
    Heartbeat,
}

pub open spec fn ending(e: SessionError) -> Seq<char> {
    match e {
        SessionError::Fragmented => "fragmented UDP frame unsupported"@,
        SessionError::Closed => "server closed tunnel"@,
        SessionError::Unexpected => "unexpected non-binary tunnel data"@,
        SessionError::Heartbeat => "server heartbeat timed out"@,
    }
}

impl SessionError {
    /// The reason in words.
    pub fn message(&self) -> (r: &'static str)
        ensures
            r@ == ending(*self),
    {
        match self {
            SessionError::Fragmented => "fragmented UDP frame unsupported",
            SessionError::Closed => "server closed tunnel",
            SessionError::Unexpected => "unexpected non-binary tunnel data",
            SessionError::Heartbeat => "server heartbeat timed out",
        }
    }
}

/// A connection to the server.
#[derive(Clone, Copy, Debug)]
pub struct Session {
    /// When the last frame came.
    pub last_rx: u64,
    /// The number of the ping that waits for its answer, and when it was sent.
    pub probe: Option<(u64, u64)>,
    /// The number of the last ping.
    pub sequence: u64,
    /// The frames since the others had their turn.
    pub processed: usize,
}

/// A session and the counters after a frame, and what is to be done with it.
pub open spec fn after_frame(
    s: Session,
    stats: Stats,
    opcode: Opcode,
    fin: bool,
    payload: Seq<u8>,
    peer: Option<SocketAddr>,
    now: u64,
) -> (Session, Stats, Result<Incoming, SessionError>) {
    let heard = Session { last_rx: now, ..s };
    match opcode {
        Opcode::Binary => if !fin {
            (heard, stats, Err(SessionError::Fragmented))
        } else {
            match peer {
                Some(dest) => (heard, stats, Ok(Incoming::Deliver(dest))),
                None => (heard, stats, Ok(Incoming::Nothing)),
            }
        },
        Opcode::Ping => (heard, stats, Ok(Incoming::Answer)),
        Opcode::Pong => {
            let (probe, rtt) = probed(s.probe, payload, now);
            (
                Session { probe, ..heard },
                match rtt {
                    Some(took) => Stats { ws_probe: Some((now, took)), ..stats },
                    None => stats,
                },
                Ok(Incoming::Nothing),
            )
        },
        Opcode::Close => (heard, stats, Err(SessionError::Closed)),
        Opcode::Other => (heard, stats, Err(SessionError::Unexpected)),
    }
}

/// A session after it is to ping, and the payload of the ping; a session whose server has been silent
/// for too long ends.
pub open spec fn after_ping(s: Session, now: u64) -> (Session, Result<Seq<u8>, SessionError>) {
    if since(s.last_rx, now) >= HEARTBEAT {
        (s, Err(SessionError::Heartbeat))
    } else {
        let sequence = counted(s.sequence, 1);
        (Session { sequence, probe: Some((sequence, now)), ..s }, Ok(big_endian(sequence)))
    }
}

impl Session {
    /// A session that begins. What was measured of an earlier one is forgotten.
    pub fn begin(stats: &mut Stats, now: u64) -> (r: Self)
        ensures
            r == (Session { last_rx: now, probe: None, sequence: 0, processed: 0 }),
            *final(stats) == (Stats { ws_probe: None, ..*old(stats) }),
    {
        stats.ws_probe = None;
        Session { last_rx: now, probe: None, sequence: 0, processed: 0 }
    }

    /// Takes a frame.
    pub fn incoming(
        &mut self,
        stats: &mut Stats,
        opcode: Opcode,
        fin: bool,
        payload: &[u8],
        peer: Option<SocketAddr>,
        now: u64,
    ) -> (r: Result<Incoming, SessionError>)
        ensures
            (*final(self), *final(stats), r) == after_frame(
                *old(self),
                *old(stats),
                opcode,
                fin,
                payload@,
                peer,
                now,
            ),
    {
        self.last_rx = now;
        match opcode {
            Opcode::Binary => {
                if !fin {
                    return Err(SessionError::Fragmented);
                }
                match peer {
                    Some(dest) => Ok(Incoming::Deliver(dest)),
                    None => Ok(Incoming::Nothing),
                }
            },
            Opcode::Ping => Ok(Incoming::Answer),
            Opcode::Pong => {
                let mut probe = self.probe;
                if let Some(took) = accept_probe(&mut probe, payload, now) {
                    stats.ws_probe = Some((now, took));
                }
                self.probe = probe;
                Ok(Incoming::Nothing)
            },
            Opcode::Close => Err(SessionError::Closed),
            Opcode::Other => Err(SessionError::Unexpected),
        }
    }

    /// Counts a frame that was dealt with; true where the others are to have their turn, which
    /// is after every 16 frames.
    pub fn handled(&mut self) -> (r: bool)
        requires
            old(self).processed < BATCH,
        ensures
            r == (old(self).processed + 1 == BATCH),
            *final(self) == (Session {
                processed: if r {
                    0
                } else {
                    (old(self).processed + 1) as usize
                },
                ..*old(self)
            }),
            final(self).processed < BATCH,
    {
        self.processed = self.processed + 1;
        if self.processed == BATCH {
            self.processed = 0;
            true
        } else {
            false
        }
    }

    /// The payload of the next ping, or the end of the session where the server has been silent
    /// for too long.
    pub fn ping(&mut self, now: u64) -> (r: Result<Vec<u8>, SessionError>)
        ensures
            match r {
                Ok(payload) => {
                    let sequence = counted(old(self).sequence, 1);
                    &&& since(old(self).last_rx, now) < HEARTBEAT
                    &&& payload@ == big_endian(sequence)
                    &&& *final(self) == (Session {
                        sequence,
                        probe: Some((sequence, now)),
                        ..*old(self)
                    })
                },
                Err(e) => {
                    &&& since(old(self).last_rx, now) >= HEARTBEAT
                    &&& e == SessionError::Heartbeat
                    &&& *final(self) == *old(self)
                },
            },
            match r {
                Ok(payload) => after_ping(*old(self), now) == (
                    *final(self),
                    Ok::<Seq<u8>, SessionError>(payload@),
                ),
                Err(e) => after_ping(*old(self), now) == (
                    *final(self),
                    Err::<Seq<u8>, SessionError>(e),
                ),
            },
    {
        if elapsed(self.last_rx, now) >= HEARTBEAT {
            return Err(SessionError::Heartbeat);
        }
        self.sequence = count(self.sequence, 1);
        self.probe = Some((self.sequence, now));
        Ok(big_endian_bytes(self.sequence))
    }
}

/// Counts a payload that was delivered to WireGuard.
pub fn delivered(stats: &mut Stats, bytes: u64)
    ensures
        *final(stats) == (Stats { rx: counted(old(stats).rx, bytes as nat), ..*old(stats) }),
{
    stats.rx = count(stats.rx, bytes);
}

// ---------------------------------------------------------------- datagrams

/// What the relay knows of the local side.
#[derive(Clone, Copy, Debug)]
pub struct Intake {
    /// Whether the tunnel is up.
    pub online: bool,
    /// The only sender that is heard.
    pub peer: Option<SocketAddr>,
    /// The datagrams since the others had their turn.
    pub processed: usize,
}

/// Whether a datagram of a sender is to be queued.
pub open spec fn heard(i: Intake, len: nat, from: SocketAddr) -> bool {
    &&& i.online
    &&& len <= MAX_PACKET
    &&& (i.peer matches Some(p) ==> same_socket(p, from))
}

/// The sender that is heard from then on: the first one, unless one was given.
pub open spec fn pinned(i: Intake, len: nat, from: SocketAddr) -> Option<SocketAddr> {
    if i.peer is None && i.online && len <= MAX_PACKET {
        Some(from)
    } else {
        i.peer
    }
}

/// The queue and the counters after a datagram.
pub open spec fn after_datagram(
    i: Intake,
    q: QueueView,
    s: Stats,
    data: Seq<u8>,
    from: SocketAddr,
    now: u64,
) -> (QueueView, Stats) {
    if !heard(i, data.len(), from) {
        (q, Stats { dropped: counted(s.dropped, 1), ..s })
    } else {
        let (after, kept) = after_push(q, data, now);
        (
            after,
            if kept {
                s
            } else {
                Stats {
                    dropped: counted(s.dropped, 1),
                    queue_full: counted(s.queue_full, 1),
                    ..s
                }
            },
        )
    }
}

/// The local side after the count of a datagram.
pub open spec fn after_pace(i: Intake) -> Intake {
    Intake {
        processed: if i.processed == BATCH {
            1
        } else {
            (i.processed + 1) as usize
        },
        ..i
    }
}

impl Intake {
    /// The local side of a tunnel that is up.
    pub fn new(source: Option<SocketAddr>) -> (r: Self)
        ensures
            r == (Intake { online: true, peer: source, processed: 0 }),
    {
        Intake { online: true, peer: source, processed: 0 }
    }

    /// Whether the others are to have their turn before the next datagram, which is after every
    /// 16 datagrams.
    pub fn pace(&mut self) -> (r: bool)
        requires
            old(self).processed <= BATCH,
        ensures
            r == (old(self).processed == BATCH),
            *final(self) == after_pace(*old(self)),
            final(self).processed <= BATCH,
    {
        let turn = self.processed == BATCH;
        if turn {
            self.processed = 0;
        }
        self.processed = self.processed + 1;
        turn
    }

    /// Takes a datagram; true where it was handed to the queue.
    pub fn datagram(
        &mut self,
        queue: &mut PacketQueue,
        stats: &mut Stats,
        data: &[u8],
        from: SocketAddr,
        now: u64,
    ) -> (r: bool)
        requires
            old(queue).bounded(),
        ensures
            r == heard(*old(self), data@.len(), from),
            (final(queue)@, *final(stats)) == after_datagram(
                *old(self),
                old(queue)@,
                *old(stats),
                data@,
                from,
                now,
            ),
            *final(self) == (Intake {
                peer: pinned(*old(self), data@.len(), from),
                ..*old(self)
            }),
            final(queue).bounded(),
    {
        if !self.online || data.len() > MAX_PACKET {
            stats.dropped = count(stats.dropped, 1);
            return false;
        }
        match self.peer {
            None => {
                self.peer = Some(from);
            },
            Some(peer) => {
                if !peer.same_as(&from) {
                    stats.dropped = count(stats.dropped, 1);
                    return false;
                }
            },
        }
        if !queue.push(data, now) {
            stats.dropped = count(stats.dropped, 1);
            stats.queue_full = count(stats.queue_full, 1);
        }
        true
    }
}

/// Counts a datagram that the system refused as too long.
pub fn oversized(stats: &mut Stats)
    ensures
        *final(stats) == (Stats { dropped: counted(old(stats).dropped, 1), ..*old(stats) }),
{
    stats.dropped = count(stats.dropped, 1);
}

/// Once a sender is heard, it stays the only one.
pub proof fn sender_stays_pinned(i: Intake, len: nat, from: SocketAddr)
    ensures
        i.peer is Some ==> pinned(i, len, from) == i.peer,
        i.peer matches Some(p) && !same_socket(p, from) ==> !heard(i, len, from),
        heard(i, len, from) && i.peer is None ==> pinned(i, len, from) == Some(from),
{
}

/// Nothing is queued while the tunnel is down.
pub proof fn offline_datagrams_are_dropped(
    i: Intake,
    q: QueueView,
    s: Stats,
    data: Seq<u8>,
    from: SocketAddr,
    now: u64,
)
    requires
        !i.online,
    ensures
        after_datagram(i, q, s, data, from, now) == (
            q,
            Stats { dropped: counted(s.dropped, 1), ..s },
        ),
        pinned(i, data.len(), from) == i.peer,
{
}

// ---------------------------------------------------------------- reconnecting

/// What happens to the connection.
#[derive(Clone, Copy, PartialEq, Eq, Structural, Debug)]
pub enum LinkEvent {
    /// A session ended after a time.
    Ended(u64),
    /// A pause is over.
    Waited,
    Connected,
    Refused,
}

/// What is to be done next.
#[derive(Clone, Copy, PartialEq, Eq, Structural, Debug)]
pub enum LinkAction {
    /// Pause for so many milliseconds.
    Wait(u64),
    Connect,
    /// Run a session on the new connection.
    Run,
}

/// How long the next pause is, in seconds.
#[derive(Clone, Copy, PartialEq, Eq, Structural, Debug)]
pub struct Link {
    pub backoff: u64,
}

/// Twice a pause, up to the longest.
pub open spec fn doubled(backoff: u64) -> u64 {
    if 2 * backoff < MAX_BACKOFF {
        (2 * backoff) as u64
    } else {
        MAX_BACKOFF
    }
}

/// A pause in milliseconds, with up to a quarter of a second from the clock, so that clients do
/// not come back in step.
pub open spec fn pause(backoff: u64, millis: u64) -> u64 {
    (backoff * 1000 + millis % 251) as u64
}

/// The next pause after an event.
pub open spec fn after_event(link: Link, event: LinkEvent) -> Link {
    match event {
        LinkEvent::Ended(ran) => if ran > STABLE {
            Link { backoff: 1 }
        } else {
            link
        },
        LinkEvent::Waited => link,
        LinkEvent::Connected => Link { backoff: doubled(link.backoff) },
        LinkEvent::Refused => Link { backoff: doubled(link.backoff) },
    }
}

/// What is to be done after an event.
pub open spec fn link_action(link: Link, event: LinkEvent, millis: u64) -> LinkAction {
    match event {
        LinkEvent::Ended(_) => LinkAction::Wait(pause(after_event(link, event).backoff, millis)),
        LinkEvent::Waited => LinkAction::Connect,
        LinkEvent::Connected => LinkAction::Run,
        LinkEvent::Refused => LinkAction::Wait(pause(after_event(link, event).backoff, millis)),
    }
}

/// The state to show after an event, where it changes.
pub open spec fn link_status(event: LinkEvent) -> Option<Status> {
    match event {
        LinkEvent::Ended(_) => Some(Status::Reconnecting),
        LinkEvent::Connected => Some(Status::Connected),
        _ => None,
    }
}

/// The local side after an event: it is heard while the tunnel is up.
pub open spec fn after_link(i: Intake, event: LinkEvent) -> Intake {
    Intake {
        online: match event {
            LinkEvent::Ended(_) => false,
            LinkEvent::Connected => true,
            _ => i.online,
        },
        ..i
    }
}

impl Link {
    pub open spec fn valid(&self) -> bool {
        1 <= self.backoff <= MAX_BACKOFF
    }

    pub fn new() -> (r: Self)
        ensures
            r == (Link { backoff: 1 }),
            r.valid(),
    {
        Link { backoff: 1 }
    }

    /// Takes an event; `millis` are the milliseconds of the clock. While the tunnel is down
    /// nothing is taken from the local side, and what waited is dropped.
    pub fn step(
        &mut self,
        intake: &mut Intake,
        queue: &mut PacketQueue,
        stats: &mut Stats,
        event: LinkEvent,
        millis: u64,
    ) -> (r: (LinkAction, Option<Status>))
        requires
            old(self).valid(),
        ensures
            final(self).valid(),
            *final(self) == after_event(*old(self), event),
            r == (link_action(*old(self), event, millis), link_status(event)),
            *final(intake) == after_link(*old(intake), event),
            final(queue)@ == if event is Ended {
                drained(old(queue)@)
            } else {
                old(queue)@
            },
            *final(stats) == match event {
                LinkEvent::Ended(_) => Stats {
                    ws_probe: None,
                    dropped: counted(old(stats).dropped, old(queue)@.pending.len()),
                    ..*old(stats)
                },
                LinkEvent::Waited => Stats {
                    reconnects: counted(old(stats).reconnects, 1),
                    ..*old(stats)
                },
                _ => *old(stats),
            },
    {
        match event {
            LinkEvent::Ended(ran) => {
                intake.online = false;
                stats.ws_probe = None;
                if ran > STABLE {
                    self.backoff = 1;
                }
                queue.discard(stats);
                (LinkAction::Wait(self.delay(millis)), Some(Status::Reconnecting))
            },
            LinkEvent::Waited => {
                stats.reconnects = count(stats.reconnects, 1);
                (LinkAction::Connect, None)
            },
            LinkEvent::Connected => {
                intake.online = true;
                self.grow();
                (LinkAction::Run, Some(Status::Connected))
            },
            LinkEvent::Refused => {
                self.grow();
                (LinkAction::Wait(self.delay(millis)), None)
            },
        }
    }

    fn delay(&self, millis: u64) -> (r: u64)
        requires
            self.valid(),
        ensures
            r == pause(self.backoff, millis),
    {
        self.backoff * 1000 + millis % 251
    }

    fn grow(&mut self)
        requires
            old(self).valid(),
        ensures
            final(self).valid(),
            *final(self) == (Link { backoff: doubled(old(self).backoff) }),
    {
        self.backoff = if 2 * self.backoff < MAX_BACKOFF {
            2 * self.backoff
        } else {
            MAX_BACKOFF
        };
    }
}

/// What the local side goes through.
pub enum LocalEvent {
    /// A datagram is counted before it is taken.
    Paced,
    /// A datagram of a sender is taken.
    Datagram(Seq<u8>, SocketAddr),
    /// Something happens to the connection.
    Link(LinkEvent),
}

/// The local side after one event.
pub open spec fn after_local(i: Intake, event: LocalEvent) -> Intake {
    match event {
        LocalEvent::Paced => after_pace(i),
        LocalEvent::Datagram(data, from) => Intake { peer: pinned(i, data.len(), from), ..i },
        LocalEvent::Link(e) => after_link(i, e),
    }
}

/// The local side after a number of events.
pub open spec fn after_locals(i: Intake, all: Seq<LocalEvent>) -> Intake
    decreases all.len(),
{
    if all.len() == 0 {
        i
    } else {
        after_local(after_locals(i, all.drop_last()), all.last())
    }
}

/// Whether the event at a place is a datagram that is queued.
pub open spec fn heard_at(i: Intake, all: Seq<LocalEvent>, k: int) -> bool {
    all[k] matches LocalEvent::Datagram(data, from) && heard(
        after_locals(i, all.take(k)),
        data.len(),
        from,
    )
}

/// The sender stays unknown until a datagram is queued, and the same from then on.
proof fn peer_after(i: Intake, all: Seq<LocalEvent>, first: int, k: int)
    requires
        i.peer is None,
        0 <= first <= all.len(),
        0 <= k <= all.len(),
        forall|j: int| 0 <= j < first ==> !#[trigger] heard_at(i, all, j),
        first < all.len() ==> heard_at(i, all, first),
    ensures
        after_locals(i, all.take(k)).peer == if k <= first {
            None
        } else {
            Some(all[first]->Datagram_1)
        },
    decreases k,
{
    if k == 0 {
        assert(all.take(0).len() == 0);
    } else {
        peer_after(i, all, first, k - 1);
        assert(all.take(k).drop_last() =~= all.take(k - 1));
        assert(all.take(k).last() == all[k - 1]);
        if k - 1 < first {
            assert(!heard_at(i, all, k - 1));
        }
    }
}

/// Without a given sender, the first whose datagram is queued is the only one from then on,
/// through whatever happens to the connection: its datagrams are queued while the tunnel is up
/// and they are not too long; every other datagram is dropped and counted, and changes nothing
/// else; what comes through the tunnel is delivered to this sender. Before that, nothing is
/// delivered.
pub proof fn first_sender_is_the_only_one(i: Intake, all: Seq<LocalEvent>, first: int, k: int)
    requires
        i.peer is None,
        0 <= first <= all.len(),
        0 <= k <= all.len(),
        forall|j: int| 0 <= j < first ==> !#[trigger] heard_at(i, all, j),
        first < all.len() ==> heard_at(i, all, first),
    ensures
        ({
            let here = after_locals(i, all.take(k));
            let only = all[first]->Datagram_1;
            &&& k > first ==> forall|len: nat, from: SocketAddr| #[trigger]
                heard(here, len, from) <==> here.online && len <= MAX_PACKET && same_socket(
                    only,
                    from,
                )
            &&& forall|q: QueueView, s: Stats, data: Seq<u8>, from: SocketAddr, now: u64|
                !heard(here, data.len(), from) ==> #[trigger] after_datagram(
                    here,
                    q,
                    s,
                    data,
                    from,
                    now,
                ) == (q, Stats { dropped: counted(s.dropped, 1), ..s }) && pinned(
                    here,
                    data.len(),
                    from,
                ) == here.peer
            &&& forall|session: Session, s: Stats, payload: Seq<u8>, now: u64|
                (#[trigger] after_frame(
                    session,
                    s,
                    Opcode::Binary,
                    true,
                    payload,
                    here.peer,
                    now,
                )).2 == Ok::<Incoming, SessionError>(
                    if k > first {
                        Incoming::Deliver(only)
                    } else {
                        Incoming::Nothing
                    },
                )
        }),
{
    peer_after(i, all, first, k);
}

/// A link after a number of events.
pub open spec fn after_events(link: Link, all: Seq<LinkEvent>) -> Link
    decreases all.len(),
{
    if all.len() == 0 {
        link
    } else {
        after_event(after_events(link, all.drop_last()), all.last())
    }
}

/// Whatever happens, a pause lasts between one second and 30.25 seconds.
pub proof fn pauses_are_bounded(all: Seq<LinkEvent>, event: LinkEvent, millis: u64)
    ensures
        after_events(Link { backoff: 1 }, all).valid(),
        link_action(after_events(Link { backoff: 1 }, all), event, millis) matches LinkAction::Wait(ms)
            ==> 1000 <= ms <= 30_250,
    decreases all.len(),
{
    if all.len() > 0 {
        pauses_are_bounded(all.drop_last(), event, millis);
    }
}

/// Each refusal makes the next pause at least as long, until the longest.
pub proof fn refusals_lengthen_pauses(link: Link)
    requires
        link.valid(),
    ensures
        ({
            let next = after_event(link, LinkEvent::Refused);
            next.backoff > link.backoff || next.backoff == MAX_BACKOFF
        }),
{
}

/// After a stable session the pauses begin anew.
pub proof fn stable_sessions_reset_pauses(link: Link, ran: u64, millis: u64)
    requires
        ran > STABLE,
    ensures
        link_action(link, LinkEvent::Ended(ran), millis) == LinkAction::Wait(pause(1, millis)),
{
}

/// How often a connection was made or refused since the last session of more than 30 seconds.
pub open spec fn tries(all: Seq<LinkEvent>) -> nat
    decreases all.len(),
{
    if all.len() == 0 {
        0
    } else {
        match all.last() {
            LinkEvent::Ended(ran) => if ran > 30_000_000_000 {
                0
            } else {
                tries(all.drop_last())
            },
            LinkEvent::Waited => tries(all.drop_last()),
            LinkEvent::Connected | LinkEvent::Refused => tries(all.drop_last()) + 1,
        }
    }
}

/// One, doubled so many times, and 30 at most.
pub open spec fn doubled_seconds(times: nat) -> int {
    if pow2(times) < 30 {
        pow2(times) as int
    } else {
        30
    }
}

proof fn lemma_doubled_seconds(times: nat)
    ensures
        doubled_seconds(0) == 1,
        1 <= doubled_seconds(times) <= 30,
        doubled_seconds(times + 1) == if 2 * doubled_seconds(times) < 30 {
            2 * doubled_seconds(times)
        } else {
            30
        },
{
    vstd::arithmetic::power2::lemma_pow2_pos(times);
    vstd::arithmetic::power2::lemma_pow2_unfold(times + 1);
    vstd::arithmetic::power2::lemma2_to64();
}

/// Each connection, made or refused, doubles the next pause, from one second up to 30; only a
/// session of more than 30 seconds starts the pauses over, and a shorter one leaves them as they
/// have grown. So it is whatever happened before. A pause lasts up to a quarter of a second more,
/// by the clock.
pub proof fn pauses_double_until_a_session_is_stable(
    all: Seq<LinkEvent>,
    event: LinkEvent,
    millis: u64,
)
    ensures
        after_events(Link { backoff: 1 }, all).backoff == doubled_seconds(tries(all)),
        ({
            let action = link_action(after_events(Link { backoff: 1 }, all), event, millis);
            match event {
                LinkEvent::Ended(_) | LinkEvent::Refused => action matches LinkAction::Wait(ms) && ms
                    == 1000 * doubled_seconds(tries(all.push(event))) + millis % 251,
                LinkEvent::Waited => action == LinkAction::Connect,
                LinkEvent::Connected => action == LinkAction::Run,
            }
        }),
    decreases all.len(),
{
    if all.len() > 0 {
        pauses_double_until_a_session_is_stable(all.drop_last(), event, millis);
        lemma_doubled_seconds(tries(all.drop_last()));
    } else {
        lemma_doubled_seconds(0);
    }
    assert(all.push(event).drop_last() =~= all);
    lemma_doubled_seconds(tries(all));
}

/// Whether events come in the order of a run: a session ends, a pause passes, a connection is made
/// or refused.
pub open spec fn in_order(all: Seq<LinkEvent>) -> bool
    decreases all.len(),
{
    all.len() > 0 ==> in_order(all.drop_last()) && match all.last() {
        LinkEvent::Ended(_) => all.len() == 1 || all[all.len() - 2] is Connected,
        LinkEvent::Waited => all.len() > 1 && (all[all.len() - 2] is Ended || all[all.len() - 2]
            is Refused),
        LinkEvent::Connected | LinkEvent::Refused => all.len() > 1 && all[all.len() - 2] is Waited,
    }
}

/// How many pauses begin in a run.
pub open spec fn pauses(all: Seq<LinkEvent>) -> nat
    decreases all.len(),
{
    if all.len() == 0 {
        0
    } else {
        pauses(all.drop_last()) + if all.last() is Ended || all.last() is Refused {
            1nat
        } else {
            0
        }
    }
}

proof fn lemma_tries_follow_pauses(all: Seq<LinkEvent>)
    requires
        in_order(all),
        forall|i: int| 0 <= i < all.len() ==> ((#[trigger] all[i]) matches LinkEvent::Ended(ran) ==> ran
            <= 30_000_000_000),
    ensures
        all.len() > 0 ==> pauses(all) == tries(all) + if all.last() is Connected {
            0nat
        } else {
            1
        },
    decreases all.len(),
{
    if all.len() > 0 {
        let before = all.drop_last();
        assert forall|i: int| 0 <= i < before.len() implies ((#[trigger] before[i]) matches LinkEvent::Ended(
            ran,
        ) ==> ran <= 30_000_000_000) by {
            assert(before[i] == all[i]);
        }
        lemma_tries_follow_pauses(before);
        assert(all.last() == all[all.len() - 1]);
        if all.len() > 1 {
            assert(before.last() == all[all.len() - 2]);
        } else {
            assert(before.len() == 0 && tries(before) == 0 && pauses(before) == 0);
            assert(all[0] is Ended);
        }
    }
}

/// In a run without a session of more than 30 seconds, the first pause is one second, each is
/// twice the one before, and none is longer than 30, but for up to a quarter of a second by the
/// clock: a server that takes connections and drops them is tried ever more rarely.
pub proof fn nth_pause_is_a_power_of_two(all: Seq<LinkEvent>, millis: u64)
    requires
        all.len() > 0,
        in_order(all),
        all.last() is Ended || all.last() is Refused,
        forall|i: int| 0 <= i < all.len() ==> ((#[trigger] all[i]) matches LinkEvent::Ended(ran) ==> ran
            <= 30_000_000_000),
    ensures
        link_action(after_events(Link { backoff: 1 }, all.drop_last()), all.last(), millis)
            matches LinkAction::Wait(ms) && ms == 1000 * if pow2((pauses(all) - 1) as nat) < 30 {
            pow2((pauses(all) - 1) as nat) as int
        } else {
            30
        } + millis % 251,
{
    lemma_tries_follow_pauses(all);
    pauses_double_until_a_session_is_stable(all.drop_last(), all.last(), millis);
    assert(all.drop_last().push(all.last()) =~= all);
}

/// While a connection is lost nothing is taken from the local side and the sender stays the same;
/// what is shown changes where a session ends and where a connection is made.
pub proof fn connections_are_told(i: Intake, event: LinkEvent)
    ensures
        after_link(i, event).peer == i.peer,
        after_link(i, event).processed == i.processed,
        event is Ended ==> !after_link(i, event).online && link_status(event) == Some(
            Status::Reconnecting,
        ),
        event is Connected ==> after_link(i, event).online && link_status(event) == Some(
            Status::Connected,
        ),
        event is Waited || event is Refused ==> after_link(i, event) == i && link_status(event)
            is None,
{
}

/// The others have their turn after every 16 datagrams.
pub proof fn datagrams_are_paced(i: Intake)
    requires
        i.processed <= 16,
    ensures
        after_pace(i) == (Intake { processed: after_pace(i).processed, ..i }),
        i.processed < 16 ==> after_pace(i).processed == i.processed + 1,
        i.processed == 16 ==> after_pace(i).processed == 1,
{
}

/// Which datagrams are queued: those that come while the tunnel is up, of 2048 bytes at most, from
/// the sender that is known; where none is known, from whoever comes first, who is known from then
/// on. Whatever is not queued is counted as dropped; what is queued and finds no room is counted
/// as lost to a full queue too.
pub proof fn datagrams_are_queued_or_counted(
    i: Intake,
    q: QueueView,
    s: Stats,
    data: Seq<u8>,
    from: SocketAddr,
    now: u64,
)
    ensures
        ({
            let fits = i.online && data.len() <= 2048;
            let (after, counters) = after_datagram(i, q, s, data, from, now);
            let (room, kept) = after_push(q, data, now);
            &&& heard(i, data.len(), from) <==> fits && (i.peer is None || same_socket(
                i.peer->0,
                from,
            ))
            &&& pinned(i, data.len(), from) == if i.peer is None && fits {
                Some(from)
            } else {
                i.peer
            }
            &&& heard(i, data.len(), from) ==> after == room
            &&& !heard(i, data.len(), from) ==> after == q
            &&& counters.dropped == counted(
                s.dropped,
                if heard(i, data.len(), from) && kept {
                    0
                } else {
                    1
                },
            )
            &&& counters.queue_full == counted(
                s.queue_full,
                if heard(i, data.len(), from) && !kept {
                    1
                } else {
                    0
                },
            )
            &&& counters == (Stats {
                dropped: counters.dropped,
                queue_full: counters.queue_full,
                ..s
            })
        }),
{
}

/// What is done with each frame. Every one shows that the server is there. A whole binary frame is
/// delivered to the local sender, if one is known; a part of one, the end of the connection and
/// anything unknown end the session; a ping is answered.
pub proof fn frames_are_dealt_with(
    s: Session,
    stats: Stats,
    opcode: Opcode,
    fin: bool,
    payload: Seq<u8>,
    peer: Option<SocketAddr>,
    now: u64,
)
    ensures
        ({
            let (after, counters, r) = after_frame(s, stats, opcode, fin, payload, peer, now);
            &&& after.last_rx == now
            &&& after.sequence == s.sequence
            &&& after.processed == s.processed
            &&& opcode != Opcode::Pong ==> counters == stats && after.probe == s.probe
            &&& r is Err <==> opcode == Opcode::Close || opcode == Opcode::Other || (opcode
                == Opcode::Binary && !fin)
            &&& r matches Err(e) ==> match opcode {
                Opcode::Close => e == SessionError::Closed,
                Opcode::Binary => e == SessionError::Fragmented,
                _ => e == SessionError::Unexpected,
            }
            &&& r == Ok::<Incoming, SessionError>(Incoming::Answer) <==> opcode == Opcode::Ping
            &&& r is Ok && opcode == Opcode::Binary ==> r->Ok_0 == match peer {
                Some(to) => Incoming::Deliver(to),
                None => Incoming::Nothing,
            }
            &&& opcode == Opcode::Pong ==> r == Ok::<Incoming, SessionError>(Incoming::Nothing)
        }),
{
}

/// The answer to the ping that waits is measured, from when the ping was sent, and ends the wait;
/// any other answer changes nothing but that the server was heard.
pub proof fn answers_are_measured(
    s: Session,
    stats: Stats,
    fin: bool,
    number: u64,
    peer: Option<SocketAddr>,
    now: u64,
)
    ensures
        ({
            let (after, counters, r) = after_frame(
                s,
                stats,
                Opcode::Pong,
                fin,
                big_endian(number),
                peer,
                now,
            );
            &&& r matches Ok(Incoming::Nothing)
            &&& s.probe matches Some((waiting, sent)) ==> (waiting == number && sent <= now) ==> (
            after.probe is None && counters == (Stats {
                ws_probe: Some((now, (now - sent) as u64)),
                ..stats
            }))
            &&& !(s.probe matches Some((waiting, _)) && waiting == number) ==> after.probe == s.probe
                && counters == stats
        }),
{
    if let Some((waiting, sent)) = s.probe {
        if waiting != number {
            unrelated_answers_are_ignored(waiting, number, sent, now);
        }
    }
}

/// The bytes of a number give it back, the most significant first.
pub proof fn big_endian_holds_the_number(n: u64)
    ensures
        big_endian(n).len() == 8,
        n == big_endian(n)[0] * 0x100_0000_0000_0000 + big_endian(n)[1] * 0x1_0000_0000_0000
            + big_endian(n)[2] * 0x100_0000_0000 + big_endian(n)[3] * 0x1_0000_0000 + big_endian(
            n,
        )[4] * 0x100_0000 + big_endian(n)[5] * 0x1_0000 + big_endian(n)[6] * 0x100 + big_endian(
            n,
        )[7],
{
    let x = n as int;
    lemma_div_denominator(x, 0x100, 0x100);
    lemma_div_denominator(x, 0x1_0000, 0x100);
    lemma_div_denominator(x, 0x100_0000, 0x100);
    lemma_div_denominator(x, 0x1_0000_0000, 0x100);
    lemma_div_denominator(x, 0x100_0000_0000, 0x100);
    lemma_div_denominator(x, 0x1_0000_0000_0000, 0x100);
    let a = x / 0x100;
    let b = x / 0x1_0000;
    let c = x / 0x100_0000;
    let d = x / 0x1_0000_0000;
    let e = x / 0x100_0000_0000;
    let f = x / 0x1_0000_0000_0000;
    let g = x / 0x100_0000_0000_0000;
    assert(x == 0x100 * a + x % 0x100);
    assert(a == 0x100 * b + a % 0x100);
    assert(b == 0x100 * c + b % 0x100);
    assert(c == 0x100 * d + c % 0x100);
    assert(d == 0x100 * e + d % 0x100);
    assert(e == 0x100 * f + e % 0x100);
    assert(f == 0x100 * g + f % 0x100);
    assert(0 <= g < 0x100);
}

// ---------------------------------------------------------------- reports

/// What a report says of an interval with traffic.
#[derive(Clone, Copy, Debug)]
pub struct Health {
    /// Bytes sent and received in the interval.
    pub tx: u64,
    pub rx: u64,
    /// How long the interval was.
    pub elapsed: u64,
    /// How long the last answered ping took, and how long ago its answer came.
    pub rtt: Option<(u64, u64)>,
    pub queue_us: u64,
    pub write_us: u64,
}

/// What has been reported.
#[derive(Clone, Copy, PartialEq, Eq, Structural, Debug)]
pub struct Report {
    pub full: u64,
    pub expired: u64,
    pub tx: u64,
    pub rx: u64,
    pub reported: u64,
}

/// How much a counter grew.
pub open spec fn grown(before: u64, after: u64) -> u64 {
    ((after - before) % 0x1_0000_0000_0000_0000) as u64
}

/// Whether a report is due.
pub open spec fn due(r: Report, interval: u64, now: u64) -> bool {
    interval != 0 && since(r.reported, now) >= interval * 1_000_000_000
}

/// The packets lost to congestion since the last time, where there were any.
pub open spec fn congestion(r: Report, s: Stats) -> Option<(u64, u64)> {
    if s.queue_full != r.full || s.queue_expired != r.expired {
        Some((grown(r.full, s.queue_full), grown(r.expired, s.queue_expired)))
    } else {
        None
    }
}

/// What is reported of the interval, where a report is due and there was traffic.
pub open spec fn health(r: Report, s: Stats, interval: u64, now: u64) -> Option<Health> {
    if due(r, interval, now) && (s.tx != r.tx || s.rx != r.rx) {
        Some(
            Health {
                tx: grown(r.tx, s.tx),
                rx: grown(r.rx, s.rx),
                elapsed: since(r.reported, now),
                rtt: match s.ws_probe {
                    Some((received, took)) => Some((took, since(received, now))),
                    None => None,
                },
                queue_us: s.queue_wait_us,
                write_us: s.write_wait_us,
            },
        )
    } else {
        None
    }
}

fn growth(before: u64, after: u64) -> (r: u64)
    ensures
        r == grown(before, after),
{
    after.wrapping_sub(before)
}

impl Report {
    /// Nothing has been reported yet.
    pub fn begin(now: u64) -> (r: Self)
        ensures
            r == (Report { full: 0, expired: 0, tx: 0, rx: 0, reported: now }),
    {
        Report { full: 0, expired: 0, tx: 0, rx: 0, reported: now }
    }

    /// What is to be reported at an instant. The longest waits start over with each report.
    pub fn tick(&mut self, stats: &mut Stats, interval: u64, now: u64) -> (r: (
        Option<(u64, u64)>,
        Option<Health>,
    ))
        ensures
            r == (congestion(*old(self), *old(stats)), health(*old(self), *old(stats), interval, now)),
            *final(self) == if due(*old(self), interval, now) {
                Report {
                    full: old(stats).queue_full,
                    expired: old(stats).queue_expired,
                    tx: old(stats).tx,
                    rx: old(stats).rx,
                    reported: now,
                }
            } else {
                Report {
                    full: old(stats).queue_full,
                    expired: old(stats).queue_expired,
                    ..*old(self)
                }
            },
            *final(stats) == if due(*old(self), interval, now) {
                Stats { queue_wait_us: 0, write_wait_us: 0, ..*old(stats) }
            } else {
                *old(stats)
            },
    {
        let lost = if stats.queue_full != self.full || stats.queue_expired != self.expired {
            Some((growth(self.full, stats.queue_full), growth(self.expired, stats.queue_expired)))
        } else {
            None
        };
        self.full = stats.queue_full;
        self.expired = stats.queue_expired;
        let passed = elapsed(self.reported, now);
        if interval == 0 || (passed as u128) < interval as u128 * 1_000_000_000 {
            return (lost, None);
        }
        let told = if stats.tx != self.tx || stats.rx != self.rx {
            Some(
                Health {
                    tx: growth(self.tx, stats.tx),
                    rx: growth(self.rx, stats.rx),
                    elapsed: passed,
                    rtt: match stats.ws_probe {
                        Some((received, took)) => Some((took, elapsed(received, now))),
                        None => None,
                    },
                    queue_us: stats.queue_wait_us,
                    write_us: stats.write_wait_us,
                },
            )
        } else {
            None
        };
        stats.queue_wait_us = 0;
        stats.write_wait_us = 0;
        self.tx = stats.tx;
        self.rx = stats.rx;
        self.reported = now;
        (lost, told)
    }
}

/// An idle tunnel reports no health, and an interval of zero turns the reports off.
pub proof fn idle_or_disabled_reports_nothing(r: Report, s: Stats, interval: u64, now: u64)
    requires
        interval == 0 || (s.tx == r.tx && s.rx == r.rx),
    ensures
        health(r, s, interval, now) is None,
{
}

/// The line that reports congestion.
pub fn congestion_line(full: u64, expired: u64) -> (r: String)
    ensures
        r@ == "transport congestion: queue full="@ + decimal(full as nat) + " expired="@ + decimal(
            expired as nat,
        ) + " packets in last 5s"@,
{
    let mut out = String::new();
    out.append("transport congestion: queue full=");
    push_decimal(&mut out, full);
    out.append(" expired=");
    push_decimal(&mut out, expired);
    out.append(" packets in last 5s");
    assert(out@ =~= "transport congestion: queue full="@ + decimal(full as nat) + " expired="@
        + decimal(expired as nat) + " packets in last 5s"@);
    out
}

pub open spec fn mode_name(mode: LatencyMode) -> Seq<char> {
    match mode {
        LatencyMode::Balanced => "balanced"@,
        LatencyMode::Interactive => "interactive"@,
    }
}

/// The line that tells how packets are moved.
pub fn mode_line(mode: LatencyMode, interval: u64) -> (r: String)
    ensures
        r@ == "transport mode: "@ + mode_name(mode) + "; health log interval="@ + decimal(
            interval as nat,
        ) + "s"@,
{
    let mut out = String::new();
    out.append("transport mode: ");
    match mode {
        LatencyMode::Balanced => out.append("balanced"),
        LatencyMode::Interactive => out.append("interactive"),
    }
    out.append("; health log interval=");
    push_decimal(&mut out, interval);
    out.append("s");
    assert(out@ =~= "transport mode: "@ + mode_name(mode) + "; health log interval="@ + decimal(
        interval as nat,
    ) + "s"@);
    out
}

/// The line that tells why a session ended.
pub fn disconnect_line(reason: &str) -> (r: String)
    ensures
        r@ == "tunnel disconnected: "@ + reason@ + "; reconnecting"@,
{
    let mut out = String::new();
    out.append("tunnel disconnected: ");
    out.append(reason);
    out.append("; reconnecting");
    assert(out@ =~= "tunnel disconnected: "@ + reason@ + "; reconnecting"@);
    out
}

/// The line that sums up a tunnel that stopped.
pub fn summary_line(stats: &Stats) -> (r: String)
    ensures
        r@ == "stopped: tx="@ + decimal(stats.tx as nat) + " bytes rx="@ + decimal(stats.rx as nat)
            + " bytes dropped="@ + decimal(stats.dropped as nat) + " packets reconnects="@
            + decimal(stats.reconnects as nat),
{
    let mut out = String::new();
    out.append("stopped: tx=");
    push_decimal(&mut out, stats.tx);
    out.append(" bytes rx=");
    push_decimal(&mut out, stats.rx);
    out.append(" bytes dropped=");
    push_decimal(&mut out, stats.dropped);
    out.append(" packets reconnects=");
    push_decimal(&mut out, stats.reconnects);
    assert(out@ =~= "stopped: tx="@ + decimal(stats.tx as nat) + " bytes rx="@ + decimal(
        stats.rx as nat,
    ) + " bytes dropped="@ + decimal(stats.dropped as nat) + " packets reconnects="@ + decimal(
        stats.reconnects as nat,
    ));
    out
}

/// What a report tells of an interval: the growth of the counters, also where one started over,
/// and what was measured. It is told where the interval has passed, is not zero and had traffic.
pub proof fn reports_tell_the_interval(r: Report, s: Stats, interval: u64, now: u64)
    ensures
        ({
            let passed = r.reported <= now && interval != 0 && (now - r.reported) >= interval
                * 1_000_000_000;
            &&& health(r, s, interval, now) is Some <==> passed && (s.tx != r.tx || s.rx != r.rx)
            &&& due(r, interval, now) <==> passed
            &&& health(r, s, interval, now) matches Some(h) ==> {
                &&& counted(r.tx, h.tx as nat) == s.tx
                &&& counted(r.rx, h.rx as nat) == s.rx
                &&& h.elapsed == now - r.reported
                &&& h.queue_us == s.queue_wait_us && h.write_us == s.write_wait_us
                &&& s.ws_probe is None ==> h.rtt is None
                &&& s.ws_probe matches Some((received, took)) ==> (received <= now ==> h.rtt == Some(
                    (took, (now - received) as u64),
                ))
            }
        }),
{
    lemma_growth(r.tx, s.tx);
    lemma_growth(r.rx, s.rx);
}

/// Congestion is told where a counter of it changed, as the growth of both.
pub proof fn congestion_tells_the_losses(r: Report, s: Stats)
    ensures
        congestion(r, s) is Some <==> s.queue_full != r.full || s.queue_expired != r.expired,
        congestion(r, s) matches Some((full, expired)) ==> counted(r.full, full as nat)
            == s.queue_full && counted(r.expired, expired as nat) == s.queue_expired,
{
    lemma_growth(r.full, s.queue_full);
    lemma_growth(r.expired, s.queue_expired);
}

proof fn lemma_growth(before: u64, after: u64)
    ensures
        counted(before, grown(before, after) as nat) == after,
{
    if after < before {
        assert((after - before) % 0x1_0000_0000_0000_0000 == after - before
            + 0x1_0000_0000_0000_0000) by (nonlinear_arith)
            requires
                -0x1_0000_0000_0000_0000 < after - before < 0,
        ;
        assert((after + 0x1_0000_0000_0000_0000) % 0x1_0000_0000_0000_0000 == after)
            by (nonlinear_arith)
            requires
                0 <= after < 0x1_0000_0000_0000_0000,
        ;
    }
}

/// A server that was heard within 45 seconds is pinged, and one that was not ends the session. The
/// answer to the ping is measured from when it was sent; the next ping has another payload.
pub proof fn silent_servers_end_sessions(
    s: Session,
    stats: Stats,
    now: u64,
    later: u64,
    fin: bool,
    peer: Option<SocketAddr>,
)
    requires
        s.last_rx <= now <= later,
    ensures
        ({
            let (pinged, payload) = after_ping(s, now);
            &&& now - s.last_rx >= 45_000_000_000 ==> payload == Err::<Seq<u8>, _>(
                SessionError::Heartbeat,
            ) && pinged == s
            &&& now - s.last_rx < 45_000_000_000 ==> payload is Ok && pinged.last_rx == s.last_rx
                && pinged.processed == s.processed && {
                let (after, counters, r) = after_frame(
                    pinged,
                    stats,
                    Opcode::Pong,
                    fin,
                    payload->Ok_0,
                    peer,
                    later,
                );
                &&& after.probe is None
                &&& after.last_rx == later
                &&& counters.ws_probe == Some((later, (later - now) as u64))
                &&& after_ping(pinged, now).1 is Ok && after_ping(pinged, now).1 != payload
            }
        }),
{
    let (pinged, payload) = after_ping(s, now);
    if payload is Ok {
        let next = counted(pinged.sequence, 1);
        assert(next != pinged.sequence);
        if big_endian(next) == big_endian(pinged.sequence) {
            big_endian_tells_numbers_apart(next, pinged.sequence);
        }
    }
}

/// The times that the relay goes by: silence of 45 seconds ends a session, one of more than 30 seconds
/// is stable, and no pause grows beyond 30 seconds.
pub proof fn times_of_the_relay()
    ensures
        HEARTBEAT == 45_000_000_000,
        STABLE == 30_000_000_000,
        MAX_BACKOFF == 30,
{
}

/// The words of a session that ends, and of a mode.
pub proof fn words_of_the_relay()
    ensures
        ending(SessionError::Fragmented) == "fragmented UDP frame unsupported"@,
        ending(SessionError::Closed) == "server closed tunnel"@,
        ending(SessionError::Unexpected) == "unexpected non-binary tunnel data"@,
        ending(SessionError::Heartbeat) == "server heartbeat timed out"@,
        mode_name(LatencyMode::Balanced) == "balanced"@,
        mode_name(LatencyMode::Interactive) == "interactive"@,
{
}

} // verus!
