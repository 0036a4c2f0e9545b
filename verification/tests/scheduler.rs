use tunnet_core::packet::{FlowKey, LogicalPacket};
use tunnet_core::scheduler::flow::NEW_FLOW_BYTE_BUDGET;
use tunnet_core::scheduler::{
    flow_packet_cap_default, Dequeue, DropReason, EnqueueOutcome, PeerScheduler, PEER_BYTE_CAP,
    PEER_PACKET_CAP,
};

const MS: u64 = 1_000_000;
const T: u64 = 10_000_000_000;

fn flow(protocol: u8, sport: u16, dport: u16) -> FlowKey {
    FlowKey { src: 0x0a00_0001, dst: 0x0a00_0002, protocol, sport, dport }
}

/// A UDP packet with `size` bytes of payload behind 28 bytes of headers.
fn logical(sport: u16, size: usize) -> LogicalPacket {
    LogicalPacket::new(flow(17, sport, 443), vec![0u8; size + 28], T)
}

fn drain_all(s: &mut PeerScheduler) -> Vec<(FlowKey, usize)> {
    let mut out = Vec::new();
    let mut guard = 4096;
    while guard > 0 {
        guard -= 1;
        match s.next(T) {
            Dequeue::Send(burst) => {
                for (p, _) in burst.packets {
                    let (f, l) = (p.flow, p.len());
                    s.account_sent(f, l, l);
                    out.push((f, l));
                }
            }
            Dequeue::Empty => break,
        }
    }
    out
}

/// Demote every flow to the old/DRR list, as the pump would.
fn demote_all(s: &mut PeerScheduler) {
    for entry in s.flows.entries.iter_mut() {
        entry.1.is_new = false;
        entry.1.epoch_bytes = NEW_FLOW_BYTE_BUDGET;
    }
    s.new_list.clear();
    s.old_list.clear();
    for entry in s.flows.entries.iter() {
        s.old_list.push_back(entry.0);
    }
}

#[test]
fn large_heads_serve_without_stall() {
    for (size, quantum) in [(2800usize, 1200usize), (9000, 1400), (9000, 512)] {
        let mut s = PeerScheduler::new(quantum);
        assert!(s.enqueue(logical(1111, size - 28), T).is_accepted());
        demote_all(&mut s);
        let mut empties = 0u32;
        let mut sent = 0u32;
        while !s.is_empty() {
            match s.next(T) {
                Dequeue::Send(burst) => {
                    for (pkt, _) in burst.packets {
                        let (f, l) = (pkt.flow, pkt.len());
                        assert_eq!(l, logical(1111, size - 28).len());
                        s.account_sent(f, l, l + 12);
                        sent += 1;
                    }
                }
                Dequeue::Empty => empties += 1,
            }
            assert!(sent + empties < 10, "stall: Empty with work queued");
        }
        assert_eq!(sent, 1);
        assert_eq!(empties, 0, "size={size} quantum={quantum}: no Empty while queued");
    }
}

#[test]
fn wire_accounted_once_per_logical() {
    let mut s = PeerScheduler::new(1200);
    let want = logical(1111, 2800 - 28);
    let (fl, len) = (want.flow, want.len());
    assert!(s.enqueue(want, T).is_accepted());
    let (f, l) = match s.next(T) {
        Dequeue::Send(burst) => {
            assert_eq!(burst.packets.len(), 1);
            let (pkt, _) = &burst.packets[0];
            (pkt.flow, pkt.len())
        }
        Dequeue::Empty => panic!("expected packet"),
    };
    assert_eq!((f, l), (fl, len));
    // Pump transmits 3 segments then accounts once with total wire.
    let total_wire = l + 3 * 11;
    s.account_sent(f, l, total_wire);
    let c = s.counters();
    assert_eq!(c.sent_packets, 1);
    assert_eq!(c.sent_bytes, len as u64);
    assert_eq!(c.wire_bytes, total_wire as u64);
}

/// Queued length of one flow (by sport) for backlog maintenance.
fn qlen(s: &PeerScheduler, sport: u16) -> usize {
    s.flows
        .entries
        .iter()
        .filter(|e| e.0.sport == sport)
        .map(|e| e.1.packets.len())
        .sum()
}

/// Continuously-backlogged byte shares for two flows: what each was served over `calls`
/// dequeue calls.
fn fairness_ratio(
    big_payload: usize,
    small_payload: usize,
    quantum: usize,
    calls: usize,
) -> (u64, u64) {
    let mut s = PeerScheduler::new(quantum);
    for _ in 0..12 {
        let _ = s.enqueue(logical(1111, big_payload), T);
    }
    for _ in 0..64 {
        let _ = s.enqueue(logical(2222, small_payload), T);
    }
    demote_all(&mut s);
    let mut bytes = [0u64; 2];
    for _ in 0..calls {
        while qlen(&s, 1111) < 12 {
            if !s.enqueue(logical(1111, big_payload), T).is_accepted() {
                break;
            }
        }
        while qlen(&s, 2222) < 64 {
            if !s.enqueue(logical(2222, small_payload), T).is_accepted() {
                break;
            }
        }
        match s.next(T) {
            Dequeue::Send(burst) => {
                for (pkt, _) in burst.packets {
                    let (f, l) = (pkt.flow, pkt.len());
                    s.account_sent(f, l, l);
                    if f.sport == 1111 {
                        bytes[0] += l as u64;
                    } else {
                        bytes[1] += l as u64;
                    }
                }
            }
            Dequeue::Empty => panic!("stall with work queued"),
        }
    }
    (bytes[0], bytes[1])
}

#[test]
fn drr_byte_fairness_jumbo_vs_small() {
    let (big, small) = fairness_ratio(9000 - 28, 100 - 28, 1200, 400);
    let ratio = big as f64 / small as f64;
    assert!(
        (0.65..=1.5).contains(&ratio),
        "byte shares must be ~equal, got big={big} small={small} ratio={ratio:.2}"
    );
}

#[test]
fn drr_byte_fairness_matrix() {
    for (big_total, small_total, quantum) in [
        (2800usize, 100usize, 1200usize),
        (9000, 1200, 1400),
        (2800, 1200, 512),
    ] {
        let (big, small) = fairness_ratio(big_total - 28, small_total - 28, quantum, 300);
        let ratio = big as f64 / small as f64;
        assert!(
            (0.6..=1.7).contains(&ratio),
            "big={big_total} small={small_total} q={quantum}: ratio={ratio:.2}"
        );
    }
}

#[test]
fn drr_byte_fairness_three_flows() {
    let mut s = PeerScheduler::new(1200);
    let sizes = [(1111u16, 9000usize - 28), (2222, 1200 - 28), (3333, 100 - 28)];
    let depths = [12usize, 32, 64];
    for (i, (sport, size)) in sizes.iter().enumerate() {
        for _ in 0..depths[i] {
            let _ = s.enqueue(logical(*sport, *size), T);
        }
    }
    demote_all(&mut s);
    let mut bytes = [0u64; 3];
    for _ in 0..600 {
        for (i, (sport, size)) in sizes.iter().enumerate() {
            while qlen(&s, *sport) < depths[i] {
                if !s.enqueue(logical(*sport, *size), T).is_accepted() {
                    break;
                }
            }
        }
        match s.next(T) {
            Dequeue::Send(burst) => {
                for (pkt, _) in burst.packets {
                    let (f, l) = (pkt.flow, pkt.len());
                    s.account_sent(f, l, l);
                    let i = sizes.iter().position(|(sp, _)| *sp == f.sport).unwrap();
                    bytes[i] += l as u64;
                }
            }
            Dequeue::Empty => panic!("stall with work queued"),
        }
    }
    let total: u64 = bytes.iter().sum();
    for (i, b) in bytes.iter().enumerate() {
        let share = *b as f64 / total as f64;
        assert!(
            (0.22..=0.45).contains(&share),
            "flow {i} share must be ~1/3, got {share:.2} (bytes={bytes:?})"
        );
    }
}

#[test]
fn eviction_reports_victim_for_gauge_reconcile() {
    let mut s = PeerScheduler::new(1536);
    let one = logical(1111, 100).len();
    for _ in 0..64 {
        assert!(s.enqueue(logical(1111, 100), T).is_accepted());
    }
    match s.enqueue(logical(1111, 100), T) {
        EnqueueOutcome::AcceptedEvicted { reason, evicted_len } => {
            assert_eq!(reason, DropReason::FlowCap);
            assert_eq!(evicted_len, one);
        }
        other => panic!("expected eviction report, got {other:?}"),
    }
    // Still exactly at cap (evict-one-accept-one is net-zero).
    assert_eq!(s.levels().0 as usize, 64);
    assert_eq!(s.counters().drops_cap, 1);
    // No codel/emergency involved.
    assert!(s.drain_drops().is_empty());
}

/// Keeps a queue of old arrivals standing past the interval, until `done` or a deadline.
fn standing_queue(done: fn(&mut PeerScheduler) -> bool) -> (PeerScheduler, bool) {
    let target = 2 * MS;
    let interval = 10 * MS;
    let mut s = PeerScheduler::with_params(1536, target, interval);
    let t0 = T - interval - 5 * MS;
    for _ in 0..10 {
        let mut pkt = logical(1111, 1200);
        pkt.enqueued_at = t0;
        assert!(s.enqueue(pkt, t0).is_accepted());
    }
    demote_all(&mut s);
    let mut now = T;
    while now < T + 500 * MS {
        match s.next(now) {
            Dequeue::Send(burst) => {
                // Requeue the whole burst to keep the queue standing.
                for (pkt, _) in burst.packets.into_iter().rev() {
                    s.requeue_head(pkt.flow, *pkt);
                }
            }
            Dequeue::Empty => {}
        }
        if done(&mut s) {
            return (s, true);
        }
        now += MS / 10;
    }
    (s, false)
}

#[test]
fn drain_drops_reports_codel_then_quiet() {
    let (mut s, reported) = standing_queue(|s| s.drain_drops().codel > 0);
    assert!(reported, "CoDel drops must surface via drain");
    // Second drain is quiet (deltas partition, never double-count).
    assert!(s.drain_drops().is_empty());
}

#[test]
fn per_flow_order_preserved() {
    let mut s = PeerScheduler::new(1536);
    for _ in 0..5 {
        assert!(s.enqueue(logical(1111, 100), T).is_accepted());
    }
    let out = drain_all(&mut s);
    assert_eq!(out.len(), 5);
    assert!(out.windows(2).all(|w| w[0].0 == w[1].0));
    assert!(s.is_empty());
}

#[test]
fn sparse_flow_jumps_bulk_backlog() {
    let mut s = PeerScheduler::new(1536);
    for _ in 0..20 {
        assert!(s.enqueue(logical(1111, 1200), T).is_accepted());
    }
    // Age the bulk flow out of sparsity, as the pump would via demotion.
    let bulk_key = s.new_list[0];
    demote_all(&mut s);
    assert!(s.enqueue(logical(2222, 100), T).is_accepted());
    match s.next(T) {
        Dequeue::Send(burst) => assert_ne!(burst.packets[0].0.flow, bulk_key),
        Dequeue::Empty => panic!("expected sparse packet"),
    }
}

#[test]
fn byte_drr_no_starvation() {
    let mut s = PeerScheduler::new(1536);
    for sport in [1111u16, 2222] {
        for _ in 0..4 {
            assert!(s.enqueue(logical(sport, 1200), T).is_accepted());
        }
    }
    demote_all(&mut s);
    let out = drain_all(&mut s);
    assert_eq!(out.len(), 8);
    assert!(out.iter().any(|(f, _)| f.sport == 1111));
    assert!(out.iter().any(|(f, _)| f.sport == 2222));
}

#[test]
fn codel_drops_standing_queue() {
    let (s, dropped) = standing_queue(|s| s.counters().drops_codel > 0);
    assert!(dropped, "CoDel must drop a standing queue");
    assert_eq!(s.counters().drops_emergency, 0);
}

#[test]
fn emergency_ceiling_is_safety_only() {
    // Fresh traffic never hits the emergency path.
    let mut s = PeerScheduler::new(1536);
    for _ in 0..8 {
        assert!(s.enqueue(logical(1111, 200), T).is_accepted());
    }
    let out = drain_all(&mut s);
    assert_eq!(out.len(), 8);
    assert_eq!(s.counters().drops_emergency, 0);
    assert_eq!(s.counters().drops_codel, 0);
}

#[test]
fn memory_bounds_enforced_without_scan() {
    let mut s = PeerScheduler::new(1536);
    let offered = PEER_PACKET_CAP + 64;
    let mut admitted = 0usize;
    let mut evicted_victims = 0usize;
    let mut rejected = 0usize;
    for i in 0..offered {
        match s.enqueue(logical(1000 + (i % 8) as u16, 1400), T) {
            EnqueueOutcome::Accepted => admitted += 1,
            EnqueueOutcome::AcceptedEvicted { .. } => {
                admitted += 1;
                evicted_victims += 1;
            }
            EnqueueOutcome::Rejected { .. } => rejected += 1,
        }
    }
    let (packets, bytes, _) = s.levels();
    assert!((packets as usize) <= PEER_PACKET_CAP);
    assert!((bytes as usize) <= PEER_BYTE_CAP + 1500);
    // Every offered packet is retained, rejected, or an evicted victim, each reported
    // exactly once.
    assert_eq!(admitted, (packets as usize) + evicted_victims);
    assert_eq!((packets as usize) + rejected + evicted_victims, offered);
    let c = s.counters();
    assert_eq!(c.drops_cap as usize, rejected + evicted_victims);
    assert_eq!(c.drops_emergency, 0);
    // Fresh traffic: no CoDel/emergency drops to drain.
    assert!(s.drain_drops().is_empty());
}

#[test]
fn icmp_isolates_from_tcp_bulk() {
    let icmp = LogicalPacket::new(flow(1, 0, 0), vec![0u8; 20 + 8 + 32], T);
    let tcp_flow = flow(6, 40000, 443);
    assert_ne!(icmp.flow, tcp_flow);
    let mut s = PeerScheduler::new(1536);
    for _ in 0..20 {
        let t = LogicalPacket::new(tcp_flow, vec![0u8; 20 + 20 + 1200], T);
        assert!(s.enqueue(t, T).is_accepted());
    }
    // Bulk is backlogged (demoted as the pump would), so the fresh ICMP flow must jump it.
    demote_all(&mut s);
    assert!(s.enqueue(icmp, T).is_accepted());
    match s.next(T) {
        Dequeue::Send(burst) => assert_ne!(burst.packets[0].0.flow, tcp_flow),
        Dequeue::Empty => panic!("expected icmp"),
    }
}

#[test]
fn requeue_preserves_order_per_peer() {
    let mut a = PeerScheduler::new(1536);
    let mut b = PeerScheduler::new(1536);
    for _ in 0..3 {
        assert!(a.enqueue(logical(1111, 100), T).is_accepted());
    }
    assert!(b.enqueue(logical(9999, 100), T).is_accepted());
    // Transport-full on A: dequeue (sparse serves one packet) then requeue the burst.
    let burst = match a.next(T) {
        Dequeue::Send(burst) => burst,
        Dequeue::Empty => panic!("expected packet"),
    };
    assert_eq!(burst.packets.len(), 1, "sparse serves one packet");
    for (pkt, _) in burst.packets.into_iter().rev() {
        a.requeue_head(pkt.flow, *pkt);
    }
    // B drains independently (same packet shape, same length).
    let expect_len = logical(9999, 100).len();
    match b.next(T) {
        Dequeue::Send(burst) => assert_eq!(burst.packets[0].0.len(), expect_len),
        Dequeue::Empty => panic!("peer B must be independent of A"),
    }
    // A still holds all 3 packets in order.
    let mut n = 0;
    while !a.is_empty() {
        match a.next(T) {
            Dequeue::Send(burst) => n += burst.packets.len() as u32,
            Dequeue::Empty => break,
        }
    }
    assert_eq!(n, 3);
    assert!(a.is_empty());
}

#[test]
fn packets_of_a_flow_leave_in_order() {
    let mut s = PeerScheduler::new(1536);
    for i in 0..40u8 {
        let mut p = logical(1111, 500);
        p.data[0] = i;
        assert!(s.enqueue(p, T).is_accepted());
    }
    let mut seen = Vec::new();
    while let Dequeue::Send(burst) = s.next(T) {
        for (p, _) in burst.packets {
            seen.push(p.data[0]);
            s.account_sent(p.flow, p.len(), p.len());
        }
    }
    assert_eq!(seen, (0..40u8).collect::<Vec<u8>>());
}

#[test]
fn ceiling_drops_packets_of_more_than_a_second() {
    let mut s = PeerScheduler::new(1536);
    for _ in 0..4 {
        assert!(s.enqueue(logical(1111, 100), T).is_accepted());
    }
    assert!(matches!(s.next(T + 2_000_000_000), Dequeue::Empty));
    assert!(s.is_empty());
    assert_eq!(s.counters().drops_emergency, 4);
    let d = s.drain_drops();
    assert_eq!((d.codel, d.emergency), (0, 4));
    assert!(s.drain_drops().is_empty());
}

#[test]
fn clear_and_levels() {
    let mut s = PeerScheduler::new(100);
    assert!(s.enqueue(logical(1, 72), T).is_accepted());
    assert!(s.enqueue(logical(2, 172), T).is_accepted());
    assert_eq!(s.levels(), (2, 300, 2));
    assert_eq!(s.clear(), (2, 300, 2));
    assert_eq!(s.levels(), (0, 0, 0));
    assert!(s.is_empty());
    s.set_quantum(1);
    assert_eq!(s.quantum, 512);
    s.set_flow_packet_cap(1);
    assert_eq!(s.flow_packet_cap, 8);
}

#[test]
fn drop_reasons_have_labels() {
    assert_eq!(DropReason::PeerByteCap.as_str(), "sched_peer_bytes");
    assert_eq!(DropReason::PeerPacketCap.as_str(), "sched_peer_packets");
    assert_eq!(DropReason::FlowCap.as_str(), "sched_flow_cap");
    assert_eq!(DropReason::Codel.as_str(), "sched_codel");
}

#[test]
fn the_flow_cap_may_be_set() {
    assert_eq!(flow_packet_cap_default(None), 64);
    assert_eq!(flow_packet_cap_default(Some("256")), 256);
    assert_eq!(flow_packet_cap_default(Some("7")), 64);
    assert_eq!(flow_packet_cap_default(Some("")), 64);
}

/// A packet of 128 bytes in all.
fn small(sport: u16, at: u64) -> LogicalPacket {
    LogicalPacket::new(flow(17, sport, 443), vec![0u8; 128], at)
}

/// 512 packets of eight flows: at the packet cap.
fn full() -> PeerScheduler {
    let mut s = PeerScheduler::new(1536);
    for i in 0..512u16 {
        assert_eq!(s.enqueue(small(1000 + i % 8, T), T), EnqueueOutcome::Accepted);
    }
    assert_eq!(s.levels(), (512, 65536, 8));
    s
}

#[test]
fn a_head_past_the_ceiling_makes_room_and_is_reported() {
    let mut s = full();
    let late = T + 2_000_000_000;
    assert_eq!(
        s.enqueue(small(2000, late), late),
        EnqueueOutcome::AcceptedEvicted {
            reason: DropReason::EmergencyCeiling,
            evicted_len: 128
        }
    );
    assert_eq!(s.levels(), (512, 65536, 9));
    let c = s.counters();
    assert_eq!((c.enqueued, c.drops_emergency, c.drops_cap), (513, 1, 0));
    // The outcome has reported the victim: no drain does so again.
    assert!(s.drain_drops().is_empty());
}

#[test]
fn the_victim_makes_enough_room_or_stays() {
    let mut s = full();
    let late = T + 2_000_000_000;
    // No head is long enough to make room for this one.
    let big = LogicalPacket::new(flow(17, 2000, 443), vec![0u8; PEER_BYTE_CAP], late);
    assert_eq!(
        s.enqueue(big, late),
        EnqueueOutcome::Rejected { reason: DropReason::PeerByteCap }
    );
    assert_eq!(s.levels(), (512, 65536, 8));
    let c = s.counters();
    assert_eq!((c.enqueued, c.drops_emergency, c.drops_cap), (512, 0, 1));
}

#[test]
fn the_first_late_head_decides() {
    // The first flow's head is short, the second one's is long; both grow old.
    let mut s = PeerScheduler::new(1536);
    assert_eq!(s.enqueue(small(1, T), T), EnqueueOutcome::Accepted);
    let long = LogicalPacket::new(flow(17, 2, 443), vec![0u8; PEER_BYTE_CAP - 128], T);
    assert_eq!(s.enqueue(long, T), EnqueueOutcome::Accepted);
    let late = T + 2_000_000_000;
    let more = LogicalPacket::new(flow(17, 3, 443), vec![0u8; 1000], late);
    assert_eq!(
        s.enqueue(more, late),
        EnqueueOutcome::Rejected { reason: DropReason::PeerByteCap }
    );
    assert_eq!(s.levels(), (2, PEER_BYTE_CAP as u64, 2));
    assert_eq!(s.counters().drops_emergency, 0);
    // A packet that the first one makes room for takes its place.
    assert_eq!(
        s.enqueue(small(3, late), late),
        EnqueueOutcome::AcceptedEvicted {
            reason: DropReason::EmergencyCeiling,
            evicted_len: 128
        }
    );
    assert_eq!(s.levels(), (2, PEER_BYTE_CAP as u64, 2));
}

#[test]
fn rejections_leave_the_levels_alone() {
    let mut s = full();
    assert_eq!(
        s.enqueue(small(2000, T), T),
        EnqueueOutcome::Rejected { reason: DropReason::PeerPacketCap }
    );
    assert_eq!(s.levels(), (512, 65536, 8));
    assert_eq!(s.counters().enqueued, 512);
    assert_eq!(s.counters().drops_cap, 1);
    let mut s = PeerScheduler::new(1536);
    let big = LogicalPacket::new(flow(17, 1, 443), vec![0u8; PEER_BYTE_CAP], T);
    assert_eq!(s.enqueue(big, T), EnqueueOutcome::Accepted);
    assert_eq!(
        s.enqueue(small(2, T), T),
        EnqueueOutcome::Rejected { reason: DropReason::PeerByteCap }
    );
    assert_eq!(s.levels(), (1, PEER_BYTE_CAP as u64, 1));
    // A packet without a byte still fits.
    let empty = LogicalPacket::new(flow(17, 3, 443), vec![], T);
    assert_eq!(s.enqueue(empty, T), EnqueueOutcome::Accepted);
    assert_eq!(s.levels(), (2, PEER_BYTE_CAP as u64, 2));
}

#[test]
fn every_admitted_packet_is_accounted_for() {
    let mut s = PeerScheduler::new(1536);
    let mut returned = 0u64;
    let mut evicted = 0u64;
    for i in 0..300u64 {
        let now = T + i * 20 * MS;
        match s.enqueue(small(1000 + (i % 3) as u16, now), now) {
            EnqueueOutcome::AcceptedEvicted { reason: DropReason::FlowCap, .. } => evicted += 1,
            _ => {}
        }
        if i % 4 == 3 {
            if let Dequeue::Send(burst) = s.next(now) {
                assert!(!burst.packets.is_empty());
                let first = burst.packets[0].0.flow;
                assert!(burst.packets.iter().all(|(p, _)| p.flow == first));
                returned += burst.packets.len() as u64;
            }
        }
    }
    // What is left grows old.
    let now = T + 20_000 * MS;
    assert!(s.enqueue(small(1000, now), now).is_accepted());
    if let Dequeue::Send(burst) = s.next(now) {
        returned += burst.packets.len() as u64;
    }
    let c = s.counters();
    assert!(returned > 0);
    assert!(c.drops_codel + c.drops_emergency > 0);
    assert_eq!(
        c.enqueued,
        returned + s.levels().0 + c.drops_codel + c.drops_emergency + evicted
    );
}

#[test]
fn a_requeued_burst_restores_the_levels() {
    let mut s = PeerScheduler::new(1536);
    for i in 0..10 {
        assert!(s.enqueue(small(1000 + i % 2, T), T).is_accepted());
    }
    demote_all(&mut s);
    let before = s.levels();
    let burst = match s.next(T) {
        Dequeue::Send(burst) => burst,
        Dequeue::Empty => panic!("expected packets"),
    };
    assert!(burst.packets.len() > 1);
    assert_ne!(s.levels(), before);
    for (p, _) in burst.packets.into_iter().rev() {
        s.requeue_head(p.flow, *p);
    }
    assert_eq!(s.levels(), before);
}
