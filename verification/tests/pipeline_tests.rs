use sdaa_async::payload::{DATA_SIZE, HEADER_SIZE, PAYLOAD_SIZE, Payload};
use sdaa_async::pipeline::SequenceState;
use sdaa_async::pool::BufferPool;

fn mk_payload(cnt: u64, header_tag: u8) -> Payload {
    let mut p = Payload::new();
    p.pkt_cnt = cnt;
    for i in 0..HEADER_SIZE {
        p.header[i] = header_tag.wrapping_add(i as u8);
    }
    for i in 0..DATA_SIZE {
        p.data[i] = 0xAB;
    }
    p
}

fn feed(state: &mut SequenceState, pool: &mut BufferPool, counters: &[u64]) -> Vec<Payload> {
    let mut out = Vec::new();
    for &c in counters {
        let p = mk_payload(c, (c % 200) as u8);
        out.extend(state.process_payload(p, pool));
    }
    out
}

#[test]
fn scenario_no_loss() {
    let mut state = SequenceState::new();
    let mut pool = BufferPool::new();
    let out = feed(&mut state, &mut pool, &[0, 1, 2, 3]);
    assert_eq!(out.len(), 4);
    for (i, p) in out.iter().enumerate() {
        assert_eq!(p.pkt_cnt, i as u64);
    }
    assert_eq!(state.ndropped, 0);
    assert_eq!(state.nreceived, 4);
    assert_eq!(state.next_cnt, Some(4));
}

#[test]
fn scenario_two_lost() {
    let mut state = SequenceState::new();
    let mut pool = BufferPool::new();
    let out = feed(&mut state, &mut pool, &[0, 1, 4]);
    assert_eq!(out.len(), 5);
    for (i, p) in out.iter().enumerate() {
        assert_eq!(p.pkt_cnt, i as u64);
    }
    // The placeholders at counters 2 and 3 carry the header of packet 4.
    let four = mk_payload(4, 4);
    assert_eq!(out[2].header, four.header);
    assert_eq!(out[3].header, four.header);
    // Placeholder data blocks are zeroed, not copies of anything received.
    assert!(out[2].data.iter().all(|&b| b == 0));
    assert!(out[3].data.iter().all(|&b| b == 0));
    assert_eq!(state.ndropped, 2);
    assert_eq!(state.nreceived, 5);
}

#[test]
fn gap_fill_counts_and_headers() {
    let mut state = SequenceState::new();
    let mut pool = BufferPool::new();
    feed(&mut state, &mut pool, &[1]);
    assert_eq!(state.next_cnt, Some(2));
    // Counter 5 after expecting 2: exactly three placeholders 2, 3, 4.
    let p = mk_payload(5, 77);
    let out = state.process_payload(p, &mut pool);
    assert_eq!(out.len(), 4);
    assert_eq!(out[0].pkt_cnt, 2);
    assert_eq!(out[1].pkt_cnt, 3);
    assert_eq!(out[2].pkt_cnt, 4);
    assert_eq!(out[3].pkt_cnt, 5);
    let tag = mk_payload(5, 77);
    for ph in &out[..3] {
        assert_eq!(ph.header, tag.header);
        assert!(ph.data.iter().all(|&b| b == 0));
    }
    assert_eq!(out[3].data, tag.data);
    assert_eq!(state.ndropped, 3);
}

#[test]
fn zero_counter_resets_statistics() {
    let mut state = SequenceState::new();
    let mut pool = BufferPool::new();
    feed(&mut state, &mut pool, &[1, 5]);
    assert_eq!(state.ndropped, 3);
    assert_eq!(state.nreceived, 5);
    let out = feed(&mut state, &mut pool, &[0]);
    assert_eq!(out.len(), 1);
    assert_eq!(out[0].pkt_cnt, 0);
    assert_eq!(state.ndropped, 0);
    assert_eq!(state.nreceived, 1);
    assert_eq!(state.next_cnt, Some(1));
}

#[test]
fn backward_counter_emits_only_the_payload() {
    let mut state = SequenceState::new();
    let mut pool = BufferPool::new();
    feed(&mut state, &mut pool, &[7]);
    assert_eq!(state.next_cnt, Some(8));
    let out = feed(&mut state, &mut pool, &[3]);
    assert_eq!(out.len(), 1);
    assert_eq!(out[0].pkt_cnt, 3);
    assert_eq!(state.next_cnt, Some(4));
    assert_eq!(state.ndropped, 0);
    assert_eq!(state.nreceived, 2);
}

#[test]
fn duplicate_counter_is_reemitted_without_loss() {
    let mut state = SequenceState::new();
    let mut pool = BufferPool::new();
    feed(&mut state, &mut pool, &[0, 1]);
    let out = feed(&mut state, &mut pool, &[1]);
    assert_eq!(out.len(), 1);
    assert_eq!(out[0].pkt_cnt, 1);
    assert_eq!(state.next_cnt, Some(2));
    assert_eq!(state.ndropped, 0);
    assert_eq!(state.nreceived, 3);
}

#[test]
fn first_payload_initializes_expectation() {
    let mut state = SequenceState::new();
    let mut pool = BufferPool::new();
    let out = feed(&mut state, &mut pool, &[41]);
    assert_eq!(out.len(), 1);
    assert_eq!(out[0].pkt_cnt, 41);
    assert_eq!(state.next_cnt, Some(42));
    assert_eq!(state.ndropped, 0);
    assert_eq!(state.nreceived, 1);
}

#[test]
fn wrong_length_datagram_is_ignored() {
    let mut state = SequenceState::new();
    let mut pool = BufferPool::new();
    feed(&mut state, &mut pool, &[0, 1]);
    let short = vec![0u8; PAYLOAD_SIZE - 1];
    let long = vec![0u8; PAYLOAD_SIZE + 1];
    let empty: Vec<u8> = Vec::new();
    for dgram in [&short, &long, &empty] {
        let out = state.handle_datagram(dgram, &mut pool);
        assert!(out.is_empty());
        assert_eq!(state.next_cnt, Some(2));
        assert_eq!(state.ndropped, 0);
        assert_eq!(state.nreceived, 2);
    }
}

#[test]
fn datagrams_through_the_wire_format() {
    let mut state = SequenceState::new();
    let mut pool = BufferPool::new();
    let mut emitted = Vec::new();
    for c in [0u64, 1, 4] {
        let bytes = mk_payload(c, 9).to_bytes();
        assert_eq!(bytes.len(), PAYLOAD_SIZE);
        emitted.extend(state.handle_datagram(&bytes, &mut pool));
    }
    let counters: Vec<u64> = emitted.iter().map(|p| p.pkt_cnt).collect();
    assert_eq!(counters, vec![0, 1, 2, 3, 4]);
    assert_eq!(state.ndropped, 2);
}

#[test]
fn largest_counter_is_rejected() {
    let mut state = SequenceState::new();
    let mut pool = BufferPool::new();
    let bytes = mk_payload(u64::MAX, 1).to_bytes();
    let out = state.handle_datagram(&bytes, &mut pool);
    assert!(out.is_empty());
    assert_eq!(state.next_cnt, None);
    assert_eq!(state.nreceived, 0);
}

#[test]
fn batch_matches_one_by_one_processing() {
    let mut batch_state = SequenceState::new();
    let mut batch_pool = BufferPool::new();
    let payloads: Vec<Payload> = [0u64, 1, 4, 5, 9]
        .iter()
        .map(|&c| mk_payload(c, (c % 200) as u8))
        .collect();
    let batched = batch_state.process_batch(payloads, &mut batch_pool);

    let mut state = SequenceState::new();
    let mut pool = BufferPool::new();
    let single = feed(&mut state, &mut pool, &[0, 1, 4, 5, 9]);

    assert_eq!(batched.len(), single.len());
    for (a, b) in batched.iter().zip(single.iter()) {
        assert_eq!(a.pkt_cnt, b.pkt_cnt);
        assert_eq!(a.header, b.header);
        assert_eq!(a.data, b.data);
    }
    assert_eq!(batch_state.next_cnt, state.next_cnt);
    assert_eq!(batch_state.ndropped, state.ndropped);
    assert_eq!(batch_state.nreceived, state.nreceived);
    let counters: Vec<u64> = batched.iter().map(|p| p.pkt_cnt).collect();
    assert_eq!(counters, vec![0, 1, 2, 3, 4, 5, 6, 7, 8, 9]);
}

#[test]
fn placeholders_draw_from_the_pool() {
    let mut state = SequenceState::new();
    let mut pool = BufferPool::new();
    pool.release(mk_payload(99, 3));
    pool.release(mk_payload(98, 4));
    assert_eq!(pool.spare_count(), 2);
    feed(&mut state, &mut pool, &[1]);
    // A gap of three placeholders empties the two spares and allocates one.
    feed(&mut state, &mut pool, &[5]);
    assert_eq!(pool.spare_count(), 0);
}
