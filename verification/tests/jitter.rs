use resc_client::binary::{VideoChunkPerFrame, VideoChunkPerPacket};
use resc_client::jitter::FrameAssembler;

fn make_pp(frame_id: u32, chunk_id: u16, chunk_size: u16) -> VideoChunkPerPacket {
    VideoChunkPerPacket { stream_id: 1, config_id: 1, frame_id, chunk_id, chunk_size }
}

fn make_pf(total_chunks: u16, total_bytes: u32) -> VideoChunkPerFrame {
    VideoChunkPerFrame {
        timestamp_us: 1000,
        is_keyframe: true,
        codec: 0,
        width: 1920,
        height: 1080,
        total_chunks,
        total_bytes,
    }
}

#[test]
fn single_chunk_frame_completes() {
    let mut assembler = FrameAssembler::new(16, 100_000);
    let pp = make_pp(1, 0, 5);
    let pf = make_pf(1, 5);
    let payload = vec![0xAA; 5];

    let result = assembler.process_chunk(&pp, Some(&pf), &payload);
    assert!(result.is_some());
    let frame = result.unwrap();
    assert_eq!(frame.frame_id, 1);
    assert_eq!(frame.data, vec![0xAA; 5]);
    assert_eq!(assembler.frames_completed, 1);
}

#[test]
fn out_of_order_chunks_assemble() {
    let mut assembler = FrameAssembler::new(16, 100_000);
    let pf = make_pf(3, 15);

    let r = assembler.process_chunk(&make_pp(1, 2, 5), None, &[0xCC; 5]);
    assert!(r.is_none());
    let r = assembler.process_chunk(&make_pp(1, 0, 5), Some(&pf), &[0xAA; 5]);
    assert!(r.is_none());
    let r = assembler.process_chunk(&make_pp(1, 1, 5), None, &[0xBB; 5]);
    assert!(r.is_some());

    let frame = r.unwrap();
    assert_eq!(&frame.data[0..5], &[0xAA; 5]);
    assert_eq!(&frame.data[5..10], &[0xBB; 5]);
    assert_eq!(&frame.data[10..15], &[0xCC; 5]);
}

#[test]
fn missing_chunk_timeout() {
    let mut assembler = FrameAssembler::new(16, 100_000);
    assembler.set_assembly_deadline_ms(0);

    let pf = make_pf(3, 15);
    assembler.process_chunk(&make_pp(1, 0, 5), Some(&pf), &[0xAA; 5]);
    // Only 1 of 3 chunks; wait past the (zero) deadline on the real clock.
    let started = std::time::Instant::now();
    while started.elapsed() < std::time::Duration::from_millis(3) {}
    assembler.expire_stale();

    assert_eq!(assembler.frames_dropped, 1);
    assert_eq!(assembler.timeout_drops, 1);
}

#[test]
fn missing_chunk_timeout_on_given_clock() {
    let mut assembler = FrameAssembler::new(16, 100_000);
    assembler.set_assembly_deadline_ms(0);

    let pf = make_pf(3, 15);
    assembler.process_chunk_at(&make_pp(1, 0, 5), Some(&pf), &[0xAA; 5], 0);
    assembler.expire_stale_at(999);
    assert_eq!(assembler.timeout_drops, 0);
    assembler.expire_stale_at(1_000);

    assert_eq!(assembler.frames_dropped, 1);
    assert_eq!(assembler.timeout_drops, 1);
}

#[test]
fn counters_read_together() {
    let mut assembler = FrameAssembler::new(16, 1000);
    let pf = make_pf(1, 2000);
    assert!(assembler.process_chunk(&make_pp(1, 0, 5), Some(&pf), &[0xAA; 5]).is_none());
    let c = assembler.counter_values();
    assert_eq!(c.oversize_drops, 1);
    assert_eq!(c.frames_dropped, 1);
    assert_eq!(c.frames_completed, 0);
    assert_eq!(c.chunks_dropped, assembler.chunks_dropped);
}

#[test]
fn oversize_frame_leaves_flight_and_restarts() {
    let mut assembler = FrameAssembler::new(4, 100_000);
    let pf = make_pf(2, 10);
    assert!(assembler.process_chunk(&make_pp(7, 1, 5), None, &[0xBB; 5]).is_none());
    let big = make_pf(5, 10);
    assert!(assembler.process_chunk(&make_pp(7, 0, 5), Some(&big), &[0xAA; 5]).is_none());
    assert_eq!(assembler.oversize_drops, 1);
    // The earlier chunk 1 was discarded with the frame: a fresh frame 7 needs it again.
    assert!(assembler.process_chunk(&make_pp(7, 0, 5), Some(&pf), &[0xAA; 5]).is_none());
    let f = assembler.process_chunk(&make_pp(7, 1, 5), None, &[0xCC; 5]).expect("frame complete");
    let mut expected = vec![0xAA; 5];
    expected.extend_from_slice(&[0xCC; 5]);
    assert_eq!(f.data, expected);
    assert_eq!(assembler.frames_completed, 1);
}

#[test]
fn fresh_frame_survives_expiry_until_past_deadline() {
    let mut assembler = FrameAssembler::new(16, 100_000);
    let pf = make_pf(2, 10);
    assembler.process_chunk_at(&make_pp(1, 0, 5), Some(&pf), &[0xAA; 5], 5_000);
    assembler.expire_stale_at(105_999);
    assert_eq!(assembler.timeout_drops, 0);
    let r = assembler.process_chunk_at(&make_pp(1, 1, 5), None, &[0xBB; 5], 105_999);
    assert!(r.is_some());

    assembler.process_chunk_at(&make_pp(2, 0, 5), Some(&pf), &[0xAA; 5], 5_000);
    assembler.expire_stale_at(106_000);
    assert_eq!(assembler.timeout_drops, 1);
    assert_eq!(assembler.frames_dropped, 1);
    let r = assembler.process_chunk_at(&make_pp(2, 1, 5), None, &[0xBB; 5], 106_000);
    assert!(r.is_none());
}

#[test]
fn oversize_frame_rejected() {
    let mut assembler = FrameAssembler::new(16, 1000);
    let pf = make_pf(1, 2000);

    let r = assembler.process_chunk(&make_pp(1, 0, 5), Some(&pf), &[0xAA; 5]);
    assert!(r.is_none());
    assert_eq!(assembler.oversize_drops, 1);
}

#[test]
fn oversize_chunk_count_rejected() {
    let mut assembler = FrameAssembler::new(4, 100_000);
    let pf = make_pf(5, 25);

    let r = assembler.process_chunk(&make_pp(1, 0, 5), Some(&pf), &[0xAA; 5]);
    assert!(r.is_none());
    assert_eq!(assembler.oversize_drops, 1);
}

#[test]
fn chunk_id_over_limit_and_oversize_payload_dropped() {
    let mut assembler = FrameAssembler::new(4, 100_000);
    assert!(assembler.process_chunk(&make_pp(1, 4, 5), None, &[0xAA; 5]).is_none());
    assert_eq!(assembler.chunks_dropped, 1);
    let big = vec![0u8; 1359];
    assert!(assembler.process_chunk(&make_pp(1, 0, 5), Some(&make_pf(1, 1359)), &big).is_none());
    assert_eq!(assembler.chunks_dropped, 2);
    assert_eq!(assembler.frames_dropped, 0);
}

#[test]
fn slot_eviction_on_full() {
    let mut assembler = FrameAssembler::new(16, 100_000);
    for fid in 1..=4u32 {
        let pf = make_pf(2, 10);
        assembler.process_chunk(&make_pp(fid, 0, 5), Some(&pf), &[0xAA; 5]);
    }
    let pf = make_pf(2, 10);
    assembler.process_chunk(&make_pp(5, 0, 5), Some(&pf), &[0xAA; 5]);
    assert_eq!(assembler.eviction_drops, 1);
}

#[test]
fn evicted_frame_is_the_lowest_id() {
    let mut assembler = FrameAssembler::new(16, 100_000);
    for fid in [7u32, 3, 9, 5] {
        assembler.process_chunk(&make_pp(fid, 0, 5), Some(&make_pf(2, 10)), &[0xAA; 5]);
    }
    assembler.process_chunk(&make_pp(10, 0, 5), Some(&make_pf(2, 10)), &[0xAA; 5]);
    assert_eq!(assembler.eviction_drops, 1);
    assert_eq!(assembler.frames_dropped, 1);
    // Frame 3 lost its slot: its second chunk starts a fresh, incomplete frame.
    assert!(assembler.process_chunk(&make_pp(3, 1, 5), None, &[0xBB; 5]).is_none());
    // Frame 7 kept its slot and completes.
    assert!(assembler.process_chunk(&make_pp(7, 1, 5), None, &[0xBB; 5]).is_some());
}

#[test]
fn duplicate_chunk_ignored() {
    let mut assembler = FrameAssembler::new(16, 100_000);
    let pf = make_pf(2, 10);

    assembler.process_chunk(&make_pp(1, 0, 5), Some(&pf), &[0xAA; 5]);
    assembler.process_chunk(&make_pp(1, 0, 5), Some(&pf), &[0xAA; 5]);
    let r = assembler.process_chunk(&make_pp(1, 1, 5), None, &[0xBB; 5]);
    assert!(r.is_some());
    assert_eq!(assembler.frames_completed, 1);
}

#[test]
fn any_arrival_order_yields_chunk_id_order_on_the_last_chunk() {
    let mut assembler = FrameAssembler::new(8, 10_000);
    let pf = make_pf(4, 10);
    let order: [u16; 4] = [3, 1, 0, 2];
    let payload_of = |c: u16| -> Vec<u8> { vec![c as u8 + 1; (c as usize) + 1] };
    for (k, &c) in order.iter().enumerate() {
        let meta = if c == 0 { Some(&pf) } else { None };
        let p = payload_of(c);
        let r = assembler.process_chunk(&make_pp(9, c, p.len() as u16), meta, &p);
        if k + 1 < order.len() {
            assert!(r.is_none());
        } else {
            let frame = r.expect("last chunk completes the frame");
            assert_eq!(frame.frame_id, 9);
            assert_eq!(frame.data, vec![1, 2, 2, 3, 3, 3, 4, 4, 4, 4]);
        }
    }
    assert_eq!(assembler.frames_completed, 1);
}

#[test]
fn chunk_past_the_frame_count_does_not_complete_it() {
    let mut assembler = FrameAssembler::new(16, 100_000);
    let pf = make_pf(2, 10);
    assert!(assembler.process_chunk(&make_pp(1, 0, 5), Some(&pf), &[0xAA; 5]).is_none());
    assert!(assembler.process_chunk(&make_pp(1, 5, 5), None, &[0xEE; 5]).is_none());
    assert_eq!(assembler.chunks_dropped, 0);
    let f = assembler.process_chunk(&make_pp(1, 1, 5), None, &[0xBB; 5]).expect("frame complete");
    assert_eq!(f.frame_id, 1);
    let mut expected = vec![0xAA; 5];
    expected.extend_from_slice(&[0xBB; 5]);
    assert_eq!(f.data, expected);
}

#[test]
fn frame_with_chunks_past_a_small_byte_limit_still_completes() {
    let mut assembler = FrameAssembler::new(16, 2000);
    let pf = make_pf(3, 15);
    assert!(assembler.process_chunk(&make_pp(1, 0, 5), Some(&pf), &[0xAA; 5]).is_none());
    assert!(assembler.process_chunk(&make_pp(1, 1, 5), None, &[0xBB; 5]).is_none());
    let f = assembler.process_chunk(&make_pp(1, 2, 5), None, &[0xCC; 5]).expect("frame complete");
    let mut expected = vec![0xAA; 5];
    expected.extend_from_slice(&[0xBB; 5]);
    expected.extend_from_slice(&[0xCC; 5]);
    assert_eq!(f.data, expected);
}

#[test]
fn frames_over_256_chunks_never_complete() {
    let mut assembler = FrameAssembler::new(400, 1_000_000);
    let pf = make_pf(300, 300);
    for c in (0..300u16).rev() {
        let meta = if c == 0 { Some(&pf) } else { None };
        let r = assembler.process_chunk(&make_pp(4, c, 1), meta, &[(c % 251) as u8]);
        assert!(r.is_none());
    }
    assert_eq!(assembler.frames_completed, 0);
    assert_eq!(assembler.chunks_dropped, 0);
}

#[test]
fn frame_of_256_chunks_completes() {
    let mut assembler = FrameAssembler::new(400, 1_000_000);
    let pf = make_pf(256, 256);
    for c in (0..256u16).rev() {
        let meta = if c == 0 { Some(&pf) } else { None };
        let r = assembler.process_chunk(&make_pp(4, c, 1), meta, &[(c % 251) as u8]);
        if c == 0 {
            let f = r.expect("last chunk completes");
            assert_eq!(f.data, (0..256u16).map(|c| (c % 251) as u8).collect::<Vec<u8>>());
        } else {
            assert!(r.is_none());
        }
    }
}
