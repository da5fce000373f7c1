use openab_pty::ringbuf::{ByteQueue, Push, QueueBounds, Replay, RingBuffer};

#[test]
fn cursor_is_monotonic_across_eviction() {
    let mut r = RingBuffer::new(8);
    assert_eq!(r.write(b"abcdefgh"), 0);
    assert_eq!(r.total_written(), 8);
    assert_eq!(r.earliest_offset(), 0);

    // Overflow by 4: cursor keeps counting, window slides.
    assert_eq!(r.write(b"ijkl"), 4);
    assert_eq!(r.total_written(), 12);
    assert_eq!(r.earliest_offset(), 4);
    assert_eq!(r.snapshot(), b"efghijkl");
}

#[test]
fn replay_since_returns_only_missed_bytes() {
    let mut r = RingBuffer::new(64);
    r.write(b"hello ");
    r.write(b"world");
    match r.read_since(6) {
        Replay::Contiguous { bytes, to_offset } => {
            assert_eq!(bytes, b"world");
            assert_eq!(to_offset, 11);
        }
        other => panic!("expected contiguous replay, got {other:?}"),
    }
}

#[test]
fn replay_at_head_is_empty_and_contiguous() {
    let mut r = RingBuffer::new(64);
    r.write(b"abc");
    assert_eq!(
        r.read_since(3),
        Replay::Contiguous {
            bytes: Vec::new(),
            to_offset: 3
        }
    );
}

#[test]
fn replay_past_eviction_reports_exact_drop_count() {
    let mut r = RingBuffer::new(4);
    r.write(b"abcdefgh"); // window now "efgh", earliest = 4
    match r.read_since(1) {
        Replay::Gap {
            bytes_dropped,
            bytes,
            to_offset,
        } => {
            assert_eq!(bytes_dropped, 3, "offsets 1..4 were evicted");
            assert_eq!(bytes, b"efgh");
            assert_eq!(to_offset, 8);
        }
        other => panic!("expected gap, got {other:?}"),
    }
}

#[test]
fn single_write_larger_than_window_keeps_tail() {
    let mut r = RingBuffer::new(4);
    assert_eq!(r.write(b"abcdefgh"), 4);
    assert_eq!(r.snapshot(), b"efgh");
    assert_eq!(r.total_written(), 8);
    assert_eq!(r.total_dropped(), 4);
}

#[test]
fn zero_scrollback_disables_retention_and_since_replay() {
    let mut r = RingBuffer::with_scrollback_kib(0);
    assert!(!r.retention_enabled());
    assert_eq!(r.write(b"abcdef"), 6);
    assert!(r.is_empty());
    // Every reconnect is a gap + reset, whatever the cursor says.
    match r.read_since(0) {
        Replay::Gap {
            bytes_dropped,
            bytes,
            to_offset,
        } => {
            assert_eq!(bytes_dropped, 6);
            assert!(bytes.is_empty());
            assert_eq!(to_offset, 6);
        }
        other => panic!("expected gap, got {other:?}"),
    }
    assert!(matches!(r.read_since(6), Replay::Gap { .. }));
}

#[test]
fn cursor_from_another_generation_is_a_gap_not_an_error() {
    let mut r = RingBuffer::new(64);
    r.write(b"abc");
    match r.read_since(9_000) {
        Replay::Gap {
            bytes_dropped,
            bytes,
            ..
        } => {
            assert_eq!(bytes_dropped, 0);
            assert_eq!(bytes, b"abc", "client clears and redraws what we have");
        }
        other => panic!("expected gap, got {other:?}"),
    }
}

#[test]
fn clear_keeps_the_cursor() {
    let mut r = RingBuffer::new(64);
    r.write(b"abc");
    r.clear();
    assert_eq!(
        r.total_written(),
        3,
        "teardown clears bytes, not the cursor"
    );
    assert!(r.is_empty());
}

#[test]
fn wrapped_window_slices_in_order() {
    let mut r = RingBuffer::new(6);
    r.write(b"abcdef");
    r.write(b"ghi"); // wraps the VecDeque internals
    assert_eq!(r.snapshot(), b"defghi");
    match r.read_since(7) {
        Replay::Contiguous { bytes, .. } => assert_eq!(bytes, b"hi"),
        other => panic!("expected contiguous, got {other:?}"),
    }
}

#[test]
fn queue_accepts_within_capacity() {
    let mut q = ByteQueue::new(QueueBounds::new(16, Some(64)));
    assert_eq!(q.push(b"1234"), Push::Accepted);
    assert_eq!(q.len(), 4);
    assert_eq!(q.take(2), b"12");
    assert_eq!(q.take(99), b"34");
    assert!(q.is_empty());
    assert_eq!(q.take_unreported_gap(), None);
}

#[test]
fn queue_drops_oldest_and_reports_one_gap_per_burst() {
    let mut q = ByteQueue::new(QueueBounds::new(4, Some(1024)));
    q.push(b"abcd");
    assert_eq!(q.push(b"ef"), Push::DroppedOldest { bytes_dropped: 2 });
    assert_eq!(q.push(b"gh"), Push::DroppedOldest { bytes_dropped: 2 });
    assert_eq!(q.len(), 4, "queue stays bounded");
    assert_eq!(
        q.take_unreported_gap(),
        Some(4),
        "coalesced into a single gap frame"
    );
    assert_eq!(q.take_unreported_gap(), None);
}

#[test]
fn queue_signals_hard_watermark_for_slow_client_disconnect() {
    let mut q = ByteQueue::new(QueueBounds::new(4, Some(4)));
    q.push(b"abcd");
    assert_eq!(q.push(b"efgh"), Push::DroppedOldest { bytes_dropped: 4 });
    // Cumulative drops now exceed the watermark.
    assert!(matches!(q.push(b"ij"), Push::HardWatermark { .. }));
    assert!(q.len() <= 4, "still bounded even past the watermark");
}

#[test]
fn zero_capacity_queue_drops_everything() {
    let mut q = ByteQueue::new(QueueBounds::new(0, None));
    assert_eq!(q.push(b"abc"), Push::DroppedOldest { bytes_dropped: 3 });
    assert!(q.is_empty());
    assert_eq!(q.take_unreported_gap(), Some(3));
}

#[test]
fn every_byte_is_retained_or_counted_as_dropped() {
    let mut ring = RingBuffer::new(4);
    for chunk in [&b"ab"[..], b"cdef", b"", b"0123456789", b"x"] {
        ring.write(chunk);
        let retained = ring.snapshot().len() as u64;
        assert_eq!(ring.total_dropped() + retained, ring.total_written());
    }
    ring.clear();
    assert_eq!(ring.total_dropped(), ring.total_written());
    ring.write(b"yz");
    assert_eq!(ring.total_dropped() + 2, ring.total_written());
}
