use openab_pty::close_code;
use openab_pty::outbound::{ConnGeneration, ControlEvent, Outbound, OutboundItem, READ_CHUNK};
use openab_pty::ringbuf::QueueBounds;

fn queue(capacity_bytes: usize) -> Outbound {
    Outbound::new(
        ConnGeneration(1),
        QueueBounds {
            capacity_bytes,
            max_dropped_bytes: Some(4 * capacity_bytes as u64),
        },
    )
}

fn warning() -> ControlEvent {
    ControlEvent::TtlWarning {
        seconds_remaining: 1,
        absolute: false,
    }
}

#[test]
fn the_first_close_code_wins() {
    let mut outbound = queue(8);
    assert_eq!(outbound.close_code(), None);
    outbound.close(close_code::RENEWED);
    outbound.close(close_code::TAKEOVER);
    assert_eq!(outbound.close_code(), Some(close_code::RENEWED));
}

#[test]
fn a_gap_comes_first_then_controls_then_bytes_then_the_close() {
    let mut outbound = queue(4);
    assert_eq!(outbound.conn(), ConnGeneration(1));
    outbound.push_bytes(b"abcdef");
    outbound.push_control(warning());
    outbound.close(close_code::SESSION_ENDED);
    assert_eq!(outbound.backlog(), 4);
    assert_eq!(
        outbound.try_next(),
        Some(OutboundItem::Control(ControlEvent::Gap { bytes_dropped: 2 }))
    );
    assert_eq!(outbound.try_next(), Some(OutboundItem::Control(warning())));
    assert_eq!(outbound.try_next(), Some(OutboundItem::Bytes(b"cdef".to_vec())));
    assert_eq!(
        outbound.try_next(),
        Some(OutboundItem::Close(close_code::SESSION_ENDED))
    );
    assert_eq!(
        outbound.try_next(),
        Some(OutboundItem::Close(close_code::SESSION_ENDED))
    );
}

#[test]
fn bytes_leave_in_chunks_and_in_order() {
    let mut outbound = queue(4 * READ_CHUNK);
    let bytes: Vec<u8> = (0..READ_CHUNK + 3).map(|i| (i % 256) as u8).collect();
    outbound.push_bytes(&bytes);
    assert_eq!(
        outbound.try_next(),
        Some(OutboundItem::Bytes(bytes[..READ_CHUNK].to_vec()))
    );
    assert_eq!(
        outbound.try_next(),
        Some(OutboundItem::Bytes(bytes[READ_CHUNK..].to_vec()))
    );
    assert_eq!(outbound.try_next(), None);
}

#[test]
fn a_client_past_the_watermark_is_closed_as_slow() {
    let mut outbound = queue(4);
    outbound.push_bytes(&[0; 20]);
    assert_eq!(outbound.close_code(), None, "at the watermark");
    outbound.push_bytes(&[0; 1]);
    assert_eq!(outbound.close_code(), Some(close_code::SLOW_CLIENT));
    assert!(outbound.backlog() <= 4);
}
