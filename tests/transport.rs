use crayfish::fragment::packets;
use crayfish::handler_args::{i32_4_to_u64_2, u64_2_to_i32_4};
use crayfish::rank::Rank;
use crayfish::reassembly::{Arrival, FragmentChecker, Reassembly, ReassemblyError};
use crayfish::segment::segment_layout;
use crayfish::sender::{SendError, SendPlan, SenderState};

#[test]
fn rank_accessors() {
    let r = Rank::new(3);
    assert_eq!(r.int_value(), 3);
    assert_eq!(r.gex_rank(), 3u32);
    assert_eq!(r.index(), Some(3usize));
    assert_eq!(Rank::new(-1).index(), None);
    assert_eq!(Rank::new(-1).gex_rank(), u32::MAX);
}

#[test]
fn handler_args_split_low_word_first() {
    assert_eq!(u64_2_to_i32_4(0x1_0000_0002, 5), (2, 1, 5, 0));
    assert_eq!(u64_2_to_i32_4(0xffff_ffff, 0), (-1, 0, 0, 0));
    assert_eq!(i32_4_to_u64_2(2, 1, 5, 0), (0x1_0000_0002, 5));
    assert_eq!(i32_4_to_u64_2(-1, -1, 0, 7), (u64::MAX, 7u64 << 32));
}

#[test]
fn handler_args_round_trip() {
    for &(a, b) in &[(0u64, 0u64), (u64::MAX, 1), (123_456_789_012, 987_654_321), (1 << 63, 1 << 31)] {
        let (w, x, y, z) = u64_2_to_i32_4(a, b);
        assert_eq!(i32_4_to_u64_2(w, x, y, z), (a, b));
    }
}

#[test]
fn segment_layout_rounds_to_pages_per_chunk() {
    let l = segment_layout(1 << 20, 4096, 3).unwrap();
    assert_eq!(l.chunk_size, 85 * 4096);
    assert_eq!(l.seg_len, 3 * 85 * 4096);
    assert_eq!(l.world_size, 3);
    assert_eq!(l.chunk_start(0), 0);
    assert_eq!(l.chunk_start(2), 2 * 85 * 4096);
}

#[test]
fn segment_layout_rejects_chunk_of_one_page() {
    assert!(segment_layout(10_000, 4096, 2).is_none());
    assert!(segment_layout(2 * 4096 * 4, 4096, 4).is_some());
    assert!(segment_layout(4096 * 4, 4096, 4).is_none());
    assert!(segment_layout(0, 4096, 1).is_none());
}

#[test]
fn packets_cover_message_in_order() {
    assert_eq!(packets(19, 4), vec![(0, 4), (4, 4), (8, 4), (12, 4), (16, 3)]);
    assert_eq!(packets(8, 4), vec![(0, 4), (4, 4)]);
    assert_eq!(packets(3, 4), vec![(0, 3)]);
    assert_eq!(packets(0, 4), Vec::<(usize, usize)>::new());
}

#[test]
fn packets_tile_every_byte_once() {
    for len in 0..50usize {
        for ps in 1..9usize {
            let p = packets(len, ps);
            let mut seen = vec![0u32; len];
            for &(o, n) in &p {
                assert!(n > 0 && n <= ps);
                for b in o..o + n {
                    seen[b] += 1;
                }
            }
            assert!(seen.iter().all(|&c| c == 1));
        }
    }
}

fn sender() -> SenderState {
    // chunk 100 bytes, medium below 10 bytes, long packets of 4 bytes, 3 places
    SenderState::new(3, 100, 10, 4)
}

#[test]
fn short_message_goes_medium() {
    let mut s = sender();
    assert!(matches!(s.plan_send(Rank::new(1), 9), Ok(SendPlan::Medium)));
    assert!(!s.waiting_reply(1));
}

#[test]
fn unknown_destination_is_refused() {
    let mut s = sender();
    assert!(matches!(s.plan_send(Rank::new(3), 1), Err(SendError::UnknownPlace)));
    assert!(matches!(s.plan_send(Rank::new(-2), 50), Err(SendError::UnknownPlace)));
}

#[test]
fn oversized_message_is_refused() {
    let mut s = sender();
    assert!(matches!(s.plan_send(Rank::new(0), 100), Err(SendError::Oversized)));
    assert!(matches!(s.plan_send(Rank::new(0), 99), Ok(SendPlan::Long { .. })));
}

#[test]
fn fragmented_send_blocks_next_large_send() {
    let mut s = sender();
    match s.plan_send(Rank::new(1), 4 * 3 + 7) {
        Ok(SendPlan::Long { wait_reply, packets }) => {
            assert!(!wait_reply);
            assert_eq!(packets, vec![(0, 4), (4, 4), (8, 4), (12, 4), (16, 3)]);
        }
        _ => panic!("expected a long send"),
    }
    assert!(s.waiting_reply(1));
    // other destinations and medium messages leave the flag alone
    assert!(matches!(s.plan_send(Rank::new(2), 50), Ok(SendPlan::Long { wait_reply: false, .. })));
    assert!(matches!(s.plan_send(Rank::new(1), 5), Ok(SendPlan::Medium)));
    assert!(s.waiting_reply(1));
    match s.plan_send(Rank::new(1), 12) {
        Ok(SendPlan::Long { wait_reply, .. }) => assert!(wait_reply),
        _ => panic!("expected a long send"),
    }
}

#[test]
fn unfragmented_long_send_owes_no_reply() {
    let mut s = sender();
    assert!(matches!(s.plan_send(Rank::new(0), 10), Ok(SendPlan::Long { wait_reply: false, .. })));
    // 10 bytes need three packets of 4: an acknowledgement is owed
    assert!(s.waiting_reply(0));
    let mut s = SenderState::new(2, 100, 10, 64);
    assert!(matches!(s.plan_send(Rank::new(0), 64), Ok(SendPlan::Long { wait_reply: false, .. })));
    assert!(!s.waiting_reply(0));
    assert!(matches!(s.plan_send(Rank::new(0), 64), Ok(SendPlan::Long { wait_reply: false, .. })));
}

#[test]
fn whole_packet_is_delivered_at_once() {
    let mut r = Reassembly::new();
    assert_eq!(r.on_packet(30, 0, 30), Ok(Arrival::Whole));
    assert_eq!(r.expecting, 0);
    assert!(r.pending.is_empty());
}

#[test]
fn fragmented_message_in_order_completes_once() {
    let mut r = Reassembly::new();
    let total = 4 * 3 + 7;
    let mut completions = 0;
    for (o, n) in packets(total, 4) {
        match r.on_packet(total, o, n).unwrap() {
            Arrival::Complete => completions += 1,
            Arrival::Partial => assert_eq!(completions, 0),
            Arrival::Whole => panic!("not a whole message"),
        }
    }
    assert_eq!(completions, 1);
    assert_eq!(r.expecting, 0);
    assert!(r.pending.is_empty());
}

#[test]
fn fragmented_message_out_of_order_completes_on_last() {
    let mut r = Reassembly::new();
    assert_eq!(r.on_packet(10, 8, 2), Ok(Arrival::Partial));
    assert_eq!(r.on_packet(10, 4, 4), Ok(Arrival::Partial));
    assert_eq!(r.expecting, 0);
    assert_eq!(r.pending.len(), 2);
    assert_eq!(r.on_packet(10, 0, 4), Ok(Arrival::Complete));
    assert_eq!(r.expecting, 0);
    assert!(r.pending.is_empty());
    // the next message starts afresh
    assert_eq!(r.on_packet(6, 0, 4), Ok(Arrival::Partial));
    assert_eq!(r.expecting, 4);
    assert_eq!(r.on_packet(6, 4, 2), Ok(Arrival::Complete));
}

#[test]
fn reassembly_errors() {
    let mut r = Reassembly::new();
    assert_eq!(r.on_packet(10, 8, 4), Err(ReassemblyError::OutOfBounds));
    assert_eq!(r.on_packet(10, usize::MAX, 2), Err(ReassemblyError::OutOfBounds));
    assert_eq!(r.on_packet(10, 3, 0), Err(ReassemblyError::EmptyPacket));
    assert_eq!(r.on_packet(10, 0, 4), Ok(Arrival::Partial));
    assert_eq!(r.on_packet(10, 2, 4), Err(ReassemblyError::Stale));
    assert_eq!(r.on_packet(10, 6, 4), Ok(Arrival::Partial));
    assert_eq!(r.on_packet(10, 6, 2), Err(ReassemblyError::Duplicate));
    assert_eq!(r.expecting, 4);
    assert_eq!(r.pending, vec![(6, 4)]);
}

#[test]
fn fragment_checker_keeps_sources_apart() {
    let mut c = FragmentChecker::new(2);
    assert_eq!(c.on_packet(Rank::new(0), 8, 0, 4), Ok(Arrival::Partial));
    assert_eq!(c.on_packet(Rank::new(1), 8, 4, 4), Ok(Arrival::Partial));
    assert_eq!(c.on_packet(Rank::new(1), 8, 0, 4), Ok(Arrival::Complete));
    assert_eq!(c.on_packet(Rank::new(0), 8, 4, 4), Ok(Arrival::Complete));
    assert_eq!(c.on_packet(Rank::new(2), 8, 0, 4), Err(ReassemblyError::UnknownPlace));
    assert_eq!(c.on_packet(Rank::new(-1), 8, 0, 8), Err(ReassemblyError::UnknownPlace));
}

#[test]
fn fragmented_send_received_with_one_reply() {
    // a message of max_long * 3 + 7 bytes from place 0 to place 1
    let max_long = 16;
    let total = max_long * 3 + 7;
    let message: Vec<u8> = (0..total).map(|i| (i * 7 % 251) as u8).collect();
    let mut s = SenderState::new(2, 1000, 8, max_long);
    let mut c = FragmentChecker::new(2);
    let plan = match s.plan_send(Rank::new(1), total) {
        Ok(SendPlan::Long { wait_reply, packets }) => {
            assert!(!wait_reply);
            packets
        }
        _ => panic!("expected a long send"),
    };
    let mut segment = vec![0u8; total];
    let mut replies = 0;
    for &(o, n) in plan.iter().rev() {
        segment[o..o + n].copy_from_slice(&message[o..o + n]);
        let (a, b, cc, d) = u64_2_to_i32_4(total as u64, o as u64);
        let (len, offset) = i32_4_to_u64_2(a, b, cc, d);
        if c.on_packet(Rank::new(0), len as usize, offset as usize, n) == Ok(Arrival::Complete) {
            replies += 1;
        }
    }
    assert_eq!(replies, 1);
    assert_eq!(segment, message);
    assert!(matches!(s.plan_send(Rank::new(1), total), Ok(SendPlan::Long { wait_reply: true, .. })));
}
