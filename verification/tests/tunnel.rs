use xxtab::config::LatencyMode;
use xxtab::logging::{self, Feed, Status};
use xxtab::net::{Ipv4Addr, SocketAddr};
use xxtab::relay::{
    accept_probe, congestion_line, delivered, disconnect_line, mode_line, oversized, summary_line,
    Incoming, Intake, Link, LinkAction, LinkEvent, Opcode, Report, Session, SessionError,
};
use xxtab::transport::{
    count, elapsed, largest, Batch, PacketQueue, Stats, BATCH, MAX_PACKET, MAX_QUEUE_AGE, QUEUE,
};

const MS: u64 = 1_000_000;
const SEC: u64 = 1_000_000_000;

fn peer(port: u16) -> SocketAddr {
    SocketAddr::v4(Ipv4Addr::localhost(), port)
}

#[test]
fn interactive_priority_is_bounded_and_preserves_bulk_progress() {
    let mut queue = PacketQueue::new(true);
    for index in 0..QUEUE {
        assert!(queue.push(&vec![index as u8; 1024], 0));
    }
    // Small control traffic can enter a full queue by replacing one bulk packet.
    assert!(!queue.push(b"control", 0));
    let first = queue.pop().unwrap();
    assert_eq!(first.data, b"control");
    queue.recycle(first);
    let first_bulk = queue.pop().unwrap();
    assert_eq!(first_bulk.data, vec![1; 1024]);
    queue.recycle(first_bulk);
    queue.discard(&mut Stats::default());
    assert!(queue.push(&[1; 1024], 0));
    for _ in 0..10 {
        assert!(queue.push(b"small", 0));
    }
    for _ in 0..4 {
        let packet = queue.pop().unwrap();
        assert_eq!(packet.data, b"small");
        queue.recycle(packet);
    }
    let packet = queue.pop().unwrap();
    assert_eq!(packet.data, [1; 1024], "bulk cannot be starved by small traffic");
    queue.recycle(packet);
    queue.discard(&mut Stats::default());
    assert_eq!(queue.free.len(), QUEUE + 1);
}

#[test]
fn probe_rejects_unrelated_and_duplicate_pongs() {
    let sent = 7;
    let mut probe = Some((12, sent));
    assert!(accept_probe(&mut probe, &11u64.to_be_bytes(), sent).is_none());
    assert!(accept_probe(&mut probe, b"", sent).is_none());
    assert_eq!(
        accept_probe(&mut probe, &12u64.to_be_bytes(), sent + 42 * MS),
        Some(42 * MS)
    );
    assert!(accept_probe(&mut probe, &12u64.to_be_bytes(), sent).is_none());
}

#[test]
fn queue_is_bounded_reuses_storage_and_survives_cancelled_wait() {
    let mut queue = PacketQueue::new(false);
    let original: std::collections::HashSet<usize> =
        queue.free.iter().map(|v| v.as_ptr().addr()).collect();
    assert!(queue.pop().is_none());
    for cycle in 0..100 {
        for index in 0..QUEUE {
            assert!(queue.push(&[cycle, index as u8], 0));
        }
        assert!(!queue.push(b"overflow", 0));
        for index in 0..QUEUE {
            let packet = queue.pop().unwrap();
            assert_eq!(packet.data, [cycle, index as u8]);
            assert!(original.contains(&packet.data.as_ptr().addr()));
            queue.recycle(packet);
        }
    }
    assert!(queue.push(b"offline backlog", 0));
    let mut stats = Stats::default();
    queue.discard(&mut stats);
    assert!(queue.pop().is_none());
    assert_eq!(stats.dropped, 1);
    assert_eq!(queue.free.len(), QUEUE + 1);
}

#[test]
fn batches_flush_preserve_frames_and_discard_expired_packets() {
    let mut queue = PacketQueue::new(false);
    let mut stats = Stats::default();
    let now = SEC;
    for index in 0..QUEUE {
        assert!(queue.push(&vec![index as u8; 1280], now));
    }
    queue.pending[0].received = now - MAX_QUEUE_AGE - MS;
    let first = queue.pop().unwrap();
    let mut batch = Batch::new(first, now);
    let mut frames = Vec::new();
    while let Some(packet) = batch.next(&mut queue, &mut stats, now) {
        frames.push(packet.data.clone());
        queue.recycle(packet);
    }
    batch.finish(&mut stats, now);
    assert_eq!(queue.pending.len(), QUEUE - BATCH);
    assert_eq!(frames.len(), BATCH - 1);
    for index in 1..BATCH {
        assert_eq!(frames[index - 1], vec![index as u8; 1280]);
    }
    assert_eq!(stats.queue_expired, 1);
    queue.discard(&mut stats);
    assert!(queue.push(b"interactive", now));
    let first = queue.pop().unwrap();
    let mut batch = Batch::new(first, now);
    let packet = batch.next(&mut queue, &mut stats, now).unwrap();
    assert_eq!(packet.data, b"interactive");
    queue.recycle(packet);
    assert!(batch.next(&mut queue, &mut stats, now).is_none());
    assert_eq!(queue.free.len(), QUEUE + 1);
}

#[test]
fn batches_count_what_they_send() {
    let mut queue = PacketQueue::new(false);
    let mut stats = Stats::default();
    assert!(queue.push(&[1; 10], 1_000));
    assert!(queue.push(&[2; 20], 2_000));
    let first = queue.pop().unwrap();
    let mut batch = Batch::new(first, 5_000_000);
    while let Some(packet) = batch.next(&mut queue, &mut stats, 5_000_000) {
        queue.recycle(packet);
    }
    batch.finish(&mut stats, 7_000_000);
    assert_eq!(stats.tx, 30);
    assert_eq!(stats.dropped, 0);
    assert_eq!(stats.queue_wait_us, 4_999);
    assert_eq!(stats.write_wait_us, 2_000);
}

#[test]
fn counters_do_not_wrap_backwards() {
    assert_eq!(elapsed(5, 3), 0);
    assert_eq!(elapsed(3, 5), 2);
    assert_eq!(largest(3, 5), 5);
    assert_eq!(count(3, 5), 8);
    assert_eq!(count(u64::MAX, 1), 0);
}

#[test]
fn balanced_queues_keep_the_order_of_arrival() {
    let mut queue = PacketQueue::new(false);
    assert!(queue.push(&[1; 1024], 0));
    assert!(queue.push(b"small", 0));
    assert_eq!(queue.pop().unwrap().data.len(), 1024);
    assert_eq!(queue.pop().unwrap().data, b"small");
}

#[test]
fn interactive_queues_send_small_packets_first_in_their_order() {
    let mut queue = PacketQueue::new(true);
    assert!(queue.push(&[9; 257], 0));
    assert!(queue.push(&[1; 256], 0));
    assert!(queue.push(&[2; 256], 0));
    assert_eq!(queue.pop().unwrap().data[0], 1);
    assert_eq!(queue.pop().unwrap().data[0], 2);
    assert_eq!(queue.pop().unwrap().data[0], 9);
}

#[test]
fn sessions_deal_with_each_kind_of_frame() {
    let mut stats = Stats { ws_probe: Some((1, 2)), ..Stats::default() };
    let mut session = Session::begin(&mut stats, 5);
    assert!(stats.ws_probe.is_none());
    let r = session.incoming(&mut stats, Opcode::Binary, true, b"x", Some(peer(9)), 6);
    assert!(matches!(r, Ok(Incoming::Deliver(p)) if p.port == 9));
    assert_eq!(session.last_rx, 6);
    let r = session.incoming(&mut stats, Opcode::Binary, true, b"x", None, 7);
    assert!(matches!(r, Ok(Incoming::Nothing)));
    let r = session.incoming(&mut stats, Opcode::Ping, true, b"x", None, 8);
    assert!(matches!(r, Ok(Incoming::Answer)));
    for (opcode, fin, error, words) in [
        (Opcode::Binary, false, SessionError::Fragmented, "fragmented UDP frame unsupported"),
        (Opcode::Close, true, SessionError::Closed, "server closed tunnel"),
        (Opcode::Other, true, SessionError::Unexpected, "unexpected non-binary tunnel data"),
    ] {
        let e = session.incoming(&mut stats, opcode, fin, b"", None, 9).unwrap_err();
        assert_eq!(e, error);
        assert_eq!(e.message(), words);
    }
    delivered(&mut stats, 30);
    assert_eq!(stats.rx, 30);
    oversized(&mut stats);
    assert_eq!(stats.dropped, 1);
}

#[test]
fn pings_measure_the_way_and_silence_ends_a_session() {
    let mut stats = Stats::default();
    let mut session = Session::begin(&mut stats, 0);
    assert_eq!(session.ping(10 * SEC).unwrap(), 1u64.to_be_bytes());
    let r = session.incoming(&mut stats, Opcode::Pong, true, &1u64.to_be_bytes(), None, 11 * SEC);
    assert!(matches!(r, Ok(Incoming::Nothing)));
    assert_eq!(stats.ws_probe, Some((11 * SEC, SEC)));
    assert_eq!(session.ping(20 * SEC).unwrap(), 2u64.to_be_bytes());
    assert_eq!(session.ping(56 * SEC).unwrap_err(), SessionError::Heartbeat);
    assert_eq!(SessionError::Heartbeat.message(), "server heartbeat timed out");
}

#[test]
fn turns_are_shared() {
    let mut stats = Stats::default();
    let mut session = Session::begin(&mut stats, 0);
    for _ in 0..3 {
        for _ in 1..BATCH {
            assert!(!session.handled());
        }
        assert!(session.handled());
    }
    let mut intake = Intake::new(None);
    for _ in 0..BATCH {
        assert!(!intake.pace());
    }
    assert!(intake.pace());
    for _ in 1..BATCH {
        assert!(!intake.pace());
    }
    assert!(intake.pace());
}

#[test]
fn the_first_sender_is_pinned() {
    let mut queue = PacketQueue::new(false);
    let mut stats = Stats::default();
    let mut intake = Intake::new(None);
    assert!(intake.datagram(&mut queue, &mut stats, b"a", peer(1), 0));
    assert!(!intake.datagram(&mut queue, &mut stats, b"b", peer(2), 0));
    assert!(intake.datagram(&mut queue, &mut stats, b"c", peer(1), 0));
    assert!(!intake.datagram(&mut queue, &mut stats, &[0; MAX_PACKET + 1], peer(1), 0));
    assert_eq!((queue.pending.len(), stats.dropped), (2, 2));
    let mut intake = Intake::new(Some(peer(3)));
    assert!(!intake.datagram(&mut queue, &mut stats, b"a", peer(1), 0));
    intake.online = false;
    assert!(!intake.datagram(&mut queue, &mut stats, b"a", peer(3), 0));
    assert_eq!(stats.dropped, 4);
    let mut intake = Intake::new(None);
    for _ in 2..QUEUE {
        assert!(intake.datagram(&mut queue, &mut stats, b"a", peer(3), 0));
    }
    assert!(intake.datagram(&mut queue, &mut stats, b"a", peer(3), 0));
    assert_eq!((stats.queue_full, stats.dropped), (1, 5));
}

#[test]
fn connections_come_back_after_growing_pauses() {
    let mut link = Link::new();
    let mut intake = Intake::new(None);
    let mut queue = PacketQueue::new(false);
    let mut stats = Stats::default();
    assert!(queue.push(b"x", 0));
    let mut step = |intake: &mut Intake, queue: &mut PacketQueue, stats: &mut Stats, event| {
        link.step(intake, queue, stats, event, 260)
    };
    let r = step(&mut intake, &mut queue, &mut stats, LinkEvent::Ended(5 * SEC));
    assert_eq!(r, (LinkAction::Wait(1_009), Some(Status::Reconnecting)));
    assert!(!intake.online);
    assert_eq!((queue.pending.len(), stats.dropped), (0, 1));
    let r = step(&mut intake, &mut queue, &mut stats, LinkEvent::Waited);
    assert_eq!(r, (LinkAction::Connect, None));
    assert_eq!(stats.reconnects, 1);
    for expected in [2_009, 4_009, 8_009, 16_009, 30_009, 30_009] {
        let r = step(&mut intake, &mut queue, &mut stats, LinkEvent::Refused);
        assert_eq!(r, (LinkAction::Wait(expected), None));
    }
    let r = step(&mut intake, &mut queue, &mut stats, LinkEvent::Connected);
    assert_eq!(r, (LinkAction::Run, Some(Status::Connected)));
    assert!(intake.online);
    let r = step(&mut intake, &mut queue, &mut stats, LinkEvent::Ended(31 * SEC));
    assert_eq!(r.0, LinkAction::Wait(1_009));
}

#[test]
fn reports_come_with_traffic_only() {
    let mut report = Report::begin(0);
    let mut stats = Stats::default();
    let (lost, health) = report.tick(&mut stats, 5, 6 * SEC);
    assert!(lost.is_none() && health.is_none());
    stats.tx = 1000;
    stats.queue_full = 2;
    stats.queue_expired = 1;
    stats.ws_probe = Some((9 * SEC, 20 * MS));
    stats.queue_wait_us = 77;
    stats.write_wait_us = 88;
    let (lost, health) = report.tick(&mut stats, 5, 10 * SEC);
    assert_eq!(lost, Some((2, 1)));
    assert!(health.is_none());
    let (lost, health) = report.tick(&mut stats, 5, 11 * SEC);
    assert!(lost.is_none());
    let health = health.unwrap();
    assert_eq!((health.tx, health.rx, health.elapsed), (1000, 0, 5 * SEC));
    assert_eq!(health.rtt, Some((20 * MS, 2 * SEC)));
    assert_eq!((health.queue_us, health.write_us), (77, 88));
    assert_eq!((stats.queue_wait_us, stats.write_wait_us), (0, 0));
    stats.tx = 2000;
    let (_, health) = report.tick(&mut stats, 0, 100 * SEC);
    assert!(health.is_none());
}

#[test]
fn lines_of_the_log() {
    assert_eq!(
        congestion_line(2, 3),
        "transport congestion: queue full=2 expired=3 packets in last 5s"
    );
    assert_eq!(
        mode_line(LatencyMode::Interactive, 30),
        "transport mode: interactive; health log interval=30s"
    );
    assert_eq!(disconnect_line("why"), "tunnel disconnected: why; reconnecting");
    let stats = Stats { tx: 1, rx: 2, dropped: 3, reconnects: 4, ..Stats::default() };
    assert_eq!(
        summary_line(&stats),
        "stopped: tx=1 bytes rx=2 bytes dropped=3 packets reconnects=4"
    );
}

#[test]
fn the_log_is_bounded_and_keeps_the_newest() {
    let mut slot = None;
    assert!(!logging::write(&mut slot, "lost"));
    logging::state(&mut slot, Status::Failed);
    assert!(slot.is_none());
    logging::attach(&mut slot, Feed { lines: Default::default(), status: Status::Idle });
    logging::state(&mut slot, Status::Connected);
    assert_eq!(slot.as_ref().unwrap().status, Status::Connected);
    for i in 0..300 {
        assert!(logging::write(&mut slot, &format!("{i}")));
    }
    assert!(logging::write(&mut slot, &"é".repeat(3000)));
    let feed = slot.unwrap();
    assert_eq!(feed.lines.len(), logging::MAX_LINES);
    assert_eq!(feed.lines.front().unwrap(), "45");
    assert_eq!(feed.lines.back().unwrap().chars().count(), logging::MAX_LINE);
}

#[test]
fn the_first_sender_is_kept_through_reconnections() {
    let mut queue = PacketQueue::new(false);
    let mut stats = Stats::default();
    let mut intake = Intake::new(None);
    let mut link = Link::new();
    let mut session = Session::begin(&mut stats, 5);
    // Before any datagram there is nobody to deliver to.
    let r = session.incoming(&mut stats, Opcode::Binary, true, b"x", intake.peer, 1);
    assert!(matches!(r, Ok(Incoming::Nothing)));
    // Neither a datagram that is too long nor one while the tunnel is down makes a sender known.
    assert!(!intake.datagram(&mut queue, &mut stats, &[0; MAX_PACKET + 1], peer(1), 0));
    link.step(&mut intake, &mut queue, &mut stats, LinkEvent::Ended(0), 0);
    assert!(!intake.datagram(&mut queue, &mut stats, b"a", peer(1), 0));
    link.step(&mut intake, &mut queue, &mut stats, LinkEvent::Connected, 0);
    assert!(intake.datagram(&mut queue, &mut stats, b"a", peer(2), 0));
    assert_eq!((queue.pending.len(), stats.dropped), (1, 2));
    link.step(&mut intake, &mut queue, &mut stats, LinkEvent::Ended(0), 0);
    link.step(&mut intake, &mut queue, &mut stats, LinkEvent::Connected, 0);
    assert_eq!(stats.dropped, 3);
    assert!(!intake.datagram(&mut queue, &mut stats, b"a", peer(1), 0));
    assert!(intake.datagram(&mut queue, &mut stats, b"a", peer(2), 0));
    assert_eq!((queue.pending.len(), stats.dropped), (1, 4));
    let r = session.incoming(&mut stats, Opcode::Binary, true, b"x", intake.peer, 2);
    assert!(matches!(r, Ok(Incoming::Deliver(p)) if p.port == 2));
}
