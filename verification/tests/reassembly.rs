use tunnet_core::frame::{
    decode_frame, encode_segment_prefix, is_malformed, Frame, SegmentHeader, KIND_SINGLE,
    SEGMENT_OVERHEAD, SINGLE_OVERHEAD,
};
use tunnet_core::reassembly::{
    FeedOut, InsertOut, ReassemblyDrop, ReassemblyTable, MAX_BYTES_PER_PEER, MAX_ENTRIES_PER_PEER,
    REASSEMBLY_TIMEOUT,
};

const NOW: u64 = 1_000_000_000;
const MS: u64 = 1_000_000;

fn head(id: u32, index: u16, count: u16, total: u16) -> SegmentHeader {
    SegmentHeader { id, index, count, total }
}

/// An IPv4/UDP packet of exactly `n` bytes, 10.0.0.1:40000 to 10.0.0.2:443.
fn logical_bytes(n: usize) -> Vec<u8> {
    let mut o = vec![0xABu8; n];
    let ip = [
        0x45,
        0,
        (n >> 8) as u8,
        n as u8,
        0,
        0,
        0x40,
        0,
        64,
        17,
        0,
        0,
        10,
        0,
        0,
        1,
        10,
        0,
        0,
        2,
    ];
    o[..20].copy_from_slice(&ip);
    o[20..22].copy_from_slice(&40000u16.to_be_bytes());
    o[22..24].copy_from_slice(&443u16.to_be_bytes());
    o[24..26].copy_from_slice(&((n - 20) as u16).to_be_bytes());
    o
}

#[test]
fn out_of_order_round_trip() {
    let mut t = ReassemblyTable::new();
    let mut g = 0u64;
    let total = 3000u16;
    let s0 = vec![1u8; 1000];
    let s1 = vec![2u8; 1000];
    let s2 = vec![3u8; 1000];
    // Arrive 2, 0, 1.
    assert!(matches!(
        t.insert(head(9, 2, 3, total), s2.clone(), NOW, &mut g),
        InsertOut::Pending
    ));
    assert!(matches!(
        t.insert(head(9, 0, 3, total), s0.clone(), NOW, &mut g),
        InsertOut::Pending
    ));
    match t.insert(head(9, 1, 3, total), s1.clone(), NOW, &mut g) {
        InsertOut::Complete(logical) => {
            assert_eq!(logical.len(), 3000);
            assert_eq!(&logical[..1000], &s0[..]);
            assert_eq!(&logical[1000..2000], &s1[..]);
            assert_eq!(&logical[2000..], &s2[..]);
        }
        other => panic!("expected complete, got {other:?}"),
    }
    assert!(t.is_empty());
    assert_eq!(g, 0);
}

#[test]
fn duplicates_and_conflicts() {
    let mut t = ReassemblyTable::new();
    let mut g = 0u64;
    let h = head(1, 0, 2, 200);
    assert!(matches!(t.insert(h, vec![5u8; 100], NOW, &mut g), InsertOut::Pending));
    // Identical duplicate: ignored.
    assert!(matches!(t.insert(h, vec![5u8; 100], NOW, &mut g), InsertOut::Duplicate));
    // Conflicting duplicate: whole reassembly dropped.
    assert!(matches!(
        t.insert(h, vec![6u8; 100], NOW, &mut g),
        InsertOut::Dropped(ReassemblyDrop::Conflict)
    ));
    assert!(t.is_empty());
}

#[test]
fn timeout_discards() {
    let mut t = ReassemblyTable::new();
    let mut g = 0u64;
    assert!(matches!(
        t.insert(head(2, 0, 2, 200), vec![1u8; 100], NOW, &mut g),
        InsertOut::Pending
    ));
    // Late second segment past the deadline starts over (old entry gone).
    let late = NOW + REASSEMBLY_TIMEOUT + 10 * MS;
    // Old entry expired on insert sweep; index-1 alone cannot complete.
    assert!(matches!(
        t.insert(head(2, 1, 2, 200), vec![2u8; 100], late, &mut g),
        InsertOut::Pending
    ));
    assert_eq!(t.len(), 1);
    t.release(&mut g);
    assert!(t.is_empty());
}

#[test]
fn id_collision_with_different_shape_restarts() {
    let mut t = ReassemblyTable::new();
    let mut g = 0u64;
    assert!(matches!(
        t.insert(head(3, 0, 2, 200), vec![1u8; 100], NOW, &mut g),
        InsertOut::Pending
    ));
    // Same ID, different shape (wrap/collision): old dropped, new pending.
    assert!(matches!(
        t.insert(head(3, 0, 3, 300), vec![1u8; 100], NOW, &mut g),
        InsertOut::Pending
    ));
    assert_eq!(t.len(), 1);
}

#[test]
fn caps_bound_memory() {
    let mut g = 0u64;
    let mut t = ReassemblyTable::with_global_cap(500);
    // Fill per-peer entries to the cap.
    for id in 0..40u32 {
        let _ = t.insert(head(id, 0, 2, 200), vec![1u8; 100], NOW, &mut g);
    }
    assert!(t.len() <= MAX_ENTRIES_PER_PEER);
    // Hard global cap: NEVER exceeded (no intentional overshoot).
    assert!(g <= 500, "global cap is a limit, not telemetry");
}

#[test]
fn global_cap_holds_under_concurrent_peers() {
    // Many peers share one counter; it never exceeds the cap, and every table respects the
    // per-peer cap. The peers take turns.
    let mut g = 0u64;
    let mut tables: Vec<ReassemblyTable> =
        (0..8).map(|_| ReassemblyTable::with_global_cap(4096)).collect();
    let mut peak = 0u64;
    for i in 0..200u32 {
        for (pi, table) in tables.iter_mut().enumerate() {
            let id = (pi as u32) * 1000 + (i % 40);
            let mut payload = vec![0u8; 100];
            payload[0] = (i & 0xff) as u8;
            let _ = table.insert(head(id, (i % 2) as u16, 2, 200), payload, NOW, &mut g);
            peak = peak.max(g);
            assert!(g <= 4096, "global cap exceeded");
        }
    }
    assert!(g <= 4096);
    assert!(peak <= 4096);
    for t in &tables {
        assert!((t.bytes() as u64) <= MAX_BYTES_PER_PEER as u64);
    }
    assert_eq!(g, tables.iter().map(|t| t.bytes() as u64).sum::<u64>());
}

#[test]
fn malicious_huge_total_rejected() {
    let mut t = ReassemblyTable::new();
    let mut g = 0u64;
    assert!(matches!(
        t.insert(head(4, 0, 2, 9001), vec![1u8; 100], NOW, &mut g),
        InsertOut::Dropped(ReassemblyDrop::Malformed)
    ));
    assert!(t.is_empty());
}

#[test]
fn feed_single_passthrough() {
    let mut t = ReassemblyTable::new();
    let mut g = 0u64;
    let net: u128 = 0x0e;
    let mut raw = vec![KIND_SINGLE];
    raw.extend_from_slice(&net.to_be_bytes());
    raw.extend_from_slice(&logical_bytes(200));
    match t.feed_datagram(&raw, NOW, &mut g) {
        FeedOut::Single(got_net, v) => {
            assert_eq!(got_net, net);
            assert_eq!(v, raw[SINGLE_OVERHEAD..]);
        }
        other => panic!("expected single, got {other:?}"),
    }
}

#[test]
fn drop_releases_global_reservation() {
    let mut g = 0u64;
    {
        let mut t = ReassemblyTable::with_global_cap(4096);
        assert!(matches!(
            t.insert(head(11, 0, 2, 200), vec![9u8; 100], NOW, &mut g),
            InsertOut::Pending
        ));
        assert_eq!(g, 100);
        t.release(&mut g);
    }
    assert_eq!(g, 0, "drop must release");
    // Churn stress: create/fill/drop repeatedly, counter returns to 0.
    for round in 0..25u32 {
        let mut t = ReassemblyTable::with_global_cap(4096);
        for id in 0..8u32 {
            let _ = t.insert(head(round * 100 + id, 0, 2, 200), vec![7u8; 100], NOW, &mut g);
        }
        t.release(&mut g);
        assert_eq!(g, 0, "round {round}: counter must return to zero");
    }
}

#[test]
fn multiple_peers_same_id_isolated() {
    let mut a = ReassemblyTable::new();
    let mut b = ReassemblyTable::new();
    let mut g = 0u64;
    assert!(matches!(
        a.insert(head(7, 0, 2, 200), vec![1u8; 100], NOW, &mut g),
        InsertOut::Pending
    ));
    assert!(matches!(
        b.insert(head(7, 1, 2, 200), vec![2u8; 100], NOW, &mut g),
        InsertOut::Pending
    ));
    assert_eq!(a.len(), 1);
    assert_eq!(b.len(), 1);
}

/// A step of a small linear congruential generator.
fn draw(state: &mut u64) -> u64 {
    *state = state.wrapping_mul(6364136223846793005).wrapping_add(1442695040888963407);
    *state >> 33
}

#[test]
fn segment_streams_bounded() {
    // Drawn segment streams never exceed caps, and either complete with exactly `total`
    // bytes or stay bounded.
    let mut r = 7u64;
    for _ in 0..300 {
        let id = (draw(&mut r) % 4) as u32;
        let count = 2 + (draw(&mut r) % 3) as u16;
        let total = 128 + (draw(&mut r) % (3000 - 128)) as u16;
        let seed = draw(&mut r);
        let mut t = ReassemblyTable::new();
        let mut g = 0u64;
        for _ in 0..draw(&mut r) % 12 {
            let index = (draw(&mut r) % 5) as u16 % count;
            let plen: usize = if index + 1 < count { 64 } else { 1 };
            let pb: Vec<u8> = (0..plen.min(total as usize))
                .map(|i| (seed.wrapping_add(index as u64).wrapping_add(i as u64) & 0xff) as u8)
                .collect();
            if let InsertOut::Complete(v) = t.insert(head(id, index, count, total), pb, NOW, &mut g)
            {
                assert_eq!(v.len(), total as usize);
            }
            assert!(t.len() <= MAX_ENTRIES_PER_PEER);
            assert!((t.bytes() as u64) <= MAX_BYTES_PER_PEER as u64);
        }
    }
}

#[test]
fn large_mtu_full_pipeline() {
    let logical = logical_bytes(2800);
    assert_eq!(logical.len(), 2800);
    let mps = 1350;
    let seg_cap = mps - SEGMENT_OVERHEAD;
    let count = 2800usize.div_ceil(seg_cap);
    assert!(count > 1);
    let mut t = ReassemblyTable::new();
    let mut g = 0u64;
    let id = 0xABCDu32;
    let net = 0x77u128;
    // Encode segments like the pump does.
    let mut frames: Vec<Vec<u8>> = Vec::new();
    for i in 0..count {
        let off = i * seg_cap;
        let end = (off + seg_cap).min(2800);
        let mut f = encode_segment_prefix(net, head(id, i as u16, count as u16, 2800));
        f.extend_from_slice(&logical[off..end]);
        assert!(f.len() <= mps);
        frames.push(f);
    }
    // Deliver in reverse order.
    let mut completed = None;
    for f in frames.into_iter().rev() {
        match t.feed_datagram(&f, NOW, &mut g) {
            FeedOut::Complete(v) => completed = Some(v),
            FeedOut::Pending => {}
            other => panic!("unexpected {other:?}"),
        }
    }
    let out = completed.expect("must complete");
    assert_eq!(out, logical);
    // The reassembled bytes are those of the IP packet.
    assert_eq!(out[16..20], [10, 0, 0, 2]);
    assert_eq!(u16::from_be_bytes([out[22], out[23]]), 443);
}

#[test]
fn encode_prefix_shapes_match_decoder() {
    let net = 0x0fu128;
    let h = head(42, 1, 4, 5000);
    let mut buf = encode_segment_prefix(net, h);
    assert_eq!(buf.len(), SEGMENT_OVERHEAD);
    buf.extend_from_slice(&[0xCC; 64]);
    match decode_frame(&buf) {
        Some(Frame::Segment { net: got_net, header: got, payload }) => {
            assert_eq!(got_net, net);
            assert_eq!(got, h);
            assert_eq!(payload, vec![0xCC; 64]);
        }
        _ => panic!("unexpected frame"),
    }
}

#[test]
fn sum_of_lengths_must_match_total() {
    // Both segments are there, and they hold less than was announced.
    let mut t = ReassemblyTable::new();
    let mut g = 0u64;
    assert!(matches!(
        t.insert(head(5, 0, 2, 200), vec![1u8; 100], NOW, &mut g),
        InsertOut::Pending
    ));
    assert!(matches!(
        t.insert(head(5, 1, 2, 200), vec![1u8; 50], NOW, &mut g),
        InsertOut::Dropped(ReassemblyDrop::Incomplete)
    ));
    assert!(t.is_empty());
    assert_eq!(g, 0);
}

#[test]
fn undecodable_datagrams_are_malformed() {
    let mut t = ReassemblyTable::new();
    let mut g = 0u64;
    for raw in [vec![], vec![9u8; 40], vec![KIND_SINGLE; 5]] {
        assert!(decode_frame(&raw).is_none());
        assert!(matches!(
            t.feed_datagram(&raw, NOW, &mut g),
            FeedOut::Dropped(ReassemblyDrop::Malformed)
        ));
    }
    assert!(is_malformed(&head(1, 2, 2, 200), 100));
    assert!(is_malformed(&head(1, 0, 2, 200), 0));
    assert!(!is_malformed(&head(1, 1, 2, 200), 100));
}

#[test]
fn a_peer_over_its_bytes_loses_the_reassembly() {
    let mut t = ReassemblyTable::with_global_cap(150);
    let mut g = 0u64;
    assert!(matches!(
        t.insert(head(1, 0, 3, 300), vec![1u8; 100], NOW, &mut g),
        InsertOut::Pending
    ));
    assert!(matches!(
        t.insert(head(1, 1, 3, 300), vec![1u8; 100], NOW, &mut g),
        InsertOut::Dropped(ReassemblyDrop::OverBytes)
    ));
    assert!(t.is_empty());
    assert_eq!(g, 0);
}

#[test]
fn pieces_in_any_order_with_repeats_restore_the_counts() {
    let mut t = ReassemblyTable::new();
    let mut g = 0u64;
    // Another packet is under way.
    assert!(matches!(t.insert(head(1, 0, 2, 200), vec![7; 100], NOW, &mut g), InsertOut::Pending));
    let before = (t.len(), t.bytes(), g);
    let packet: Vec<u8> = (0..90u8).collect();
    let cuts = [0usize, 10, 40, 60, 90];
    let piece = |i: usize| packet[cuts[i]..cuts[i + 1]].to_vec();
    let mut seen = [false; 4];
    for (n, i) in [2usize, 0, 2, 3, 0, 0].into_iter().enumerate() {
        let out = t.insert(head(9, i as u16, 4, 90), piece(i), NOW + n as u64 * MS, &mut g);
        if seen[i] {
            assert!(matches!(out, InsertOut::Duplicate));
        } else {
            assert!(matches!(out, InsertOut::Pending));
        }
        seen[i] = true;
    }
    match t.insert(head(9, 1, 4, 90), piece(1), NOW + 400 * MS, &mut g) {
        InsertOut::Complete(p) => assert_eq!(p, packet),
        other => panic!("expected complete, got {other:?}"),
    }
    assert_eq!((t.len(), t.bytes(), g), before);
}

#[test]
fn tables_share_one_budget() {
    let cap = 250u64;
    let mut g = 0u64;
    let mut tables: Vec<ReassemblyTable> =
        (0..3).map(|_| ReassemblyTable::with_global_cap(cap)).collect();
    for n in 0..40u32 {
        let i = (n % 3) as usize;
        let out = tables[i].insert(head(n, 0, 2, 120), vec![1; 60], NOW + n as u64, &mut g);
        if let InsertOut::Complete(v) = out {
            assert_eq!(v.len(), 120);
        }
        assert!(g <= cap);
        assert_eq!(g, tables.iter().map(|t| t.bytes() as u64).sum::<u64>());
        if n == 20 {
            tables[0].release(&mut g);
            assert_eq!(g, tables.iter().map(|t| t.bytes() as u64).sum::<u64>());
        }
    }
    assert!(g > 0);
}
