use udpstream::packet::packetize;
use udpstream::pool::BufferPool;

#[test]
fn packetize_splits_evenly() {
    let frame: Vec<u8> = vec![10, 11, 12, 13, 14, 15, 16, 17];
    let packets = packetize(&frame, 4);
    assert_eq!(packets.len(), 2);
    assert_eq!(packets[0], vec![0, 0, 10, 11, 12, 13]);
    assert_eq!(packets[1], vec![0, 4, 14, 15, 16, 17]);
}

#[test]
fn packetize_keeps_the_remainder_in_the_last_packet() {
    let frame: Vec<u8> = (0..10).collect();
    let packets = packetize(&frame, 4);
    assert_eq!(packets.len(), 3);
    assert_eq!(packets[2], vec![0, 8, 8, 9]);
}

#[test]
fn packetize_of_empty_frame_is_empty() {
    let frame: Vec<u8> = Vec::new();
    let packets = packetize(&frame, 1024);
    assert_eq!(packets.len(), 0);
}

#[test]
fn packet_count_is_ceiling_of_frame_over_chunk() {
    for n in [0usize, 1, 1023, 1024, 1025, 4096, 8191, 8192] {
        let frame = vec![0u8; n];
        let packets = packetize(&frame, 1024);
        assert_eq!(packets.len(), (n + 1023) / 1024);
    }
}

#[test]
fn concatenated_payloads_reconstruct_the_frame() {
    let frame: Vec<u8> = (0..=255).cycle().take(3000).collect();
    let packets = packetize(&frame, 1024);
    let mut rebuilt: Vec<u8> = Vec::new();
    for p in &packets {
        rebuilt.extend_from_slice(&p[2..]);
    }
    assert_eq!(rebuilt, frame);
}

#[test]
fn headers_are_increasing_multiples_of_the_block_size() {
    let frame = vec![7u8; 8192];
    let packets = packetize(&frame, 1024);
    assert_eq!(packets.len(), 8);
    for (i, p) in packets.iter().enumerate() {
        let offset = u16::from_be_bytes([p[0], p[1]]) as usize;
        assert_eq!(offset, i * 1024);
        assert_eq!(p.len(), 2 + 1024);
    }
}

#[test]
fn pool_conserves_the_buffer_count() {
    let mut pool = BufferPool::new(4, 16);
    assert_eq!(pool.free_count(), 4);
    let a = pool.acquire().unwrap();
    let b = pool.acquire().unwrap();
    assert_eq!(a.len(), 16);
    assert_eq!(b.len(), 16);
    assert_eq!(pool.free_count(), 2);
    assert_eq!(pool.in_flight, 2);
    assert_eq!(pool.free_count() + pool.in_flight, pool.total);
    pool.release(a);
    pool.release(b);
    assert_eq!(pool.free_count(), 4);
    assert_eq!(pool.in_flight, 0);
    assert_eq!(pool.free_count() + pool.in_flight, pool.total);
}

#[test]
fn exhausted_pool_returns_nothing() {
    let mut pool = BufferPool::new(1, 8);
    let only = pool.acquire().unwrap();
    assert!(pool.acquire().is_none());
    assert_eq!(pool.free_count() + pool.in_flight, pool.total);
    pool.release(only);
    assert!(pool.acquire().is_some());
}

#[test]
fn new_pool_buffers_are_zeroed() {
    let mut pool = BufferPool::new(2, 4);
    let buf = pool.acquire().unwrap();
    assert_eq!(buf, vec![0u8; 4]);
}
