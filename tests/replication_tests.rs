use pgcdc::replication::{
    parse_frame, read_be_u64, standby_status_update, FatalReason, Frame, ReplicationAction,
    ReplicationState,
};

fn keepalive(wal_end: u64, reply: u8) -> Vec<u8> {
    let mut b = vec![b'k'];
    b.extend_from_slice(&wal_end.to_be_bytes());
    b.extend_from_slice(&7u64.to_be_bytes());
    b.push(reply);
    b
}

fn xlog(start: u64, payload: &[u8]) -> Vec<u8> {
    let mut b = vec![b'w'];
    b.extend_from_slice(&start.to_be_bytes());
    b.extend_from_slice(&(start + 10).to_be_bytes());
    b.extend_from_slice(&3u64.to_be_bytes());
    b.extend_from_slice(payload);
    b
}

#[test]
fn keepalive_asking_for_reply_is_answered() {
    let mut s = ReplicationState::new(0x100);
    let r = s.on_frame(&keepalive(0x0000000100000200, 1), 0x55);
    let mut expected = vec![b'r'];
    for _ in 0..3 {
        expected.extend_from_slice(&0x0000000100000200u64.to_be_bytes());
    }
    expected.extend_from_slice(&0x55u64.to_be_bytes());
    expected.push(0);
    match r {
        ReplicationAction::Reply(bytes) => assert_eq!(bytes, expected),
        other => panic!("unexpected {:?}", other),
    }
    assert_eq!(s.last_lsn, 0x0000000100000200);
    assert_eq!(s.consecutive_pending_keepalives, 1);
}

#[test]
fn keepalive_keeps_the_larger_position() {
    let mut s = ReplicationState::new(0x500);
    let r = s.on_frame(&keepalive(0x200, 1), 1);
    assert_eq!(s.last_lsn, 0x500);
    match r {
        ReplicationAction::Reply(bytes) => assert_eq!(read_be_u64(&bytes, 1), 0x500),
        other => panic!("unexpected {:?}", other),
    }
}

#[test]
fn keepalive_without_reply_resets_the_counter() {
    let mut s = ReplicationState::new(0);
    s.on_frame(&keepalive(1, 1), 0);
    s.on_frame(&keepalive(2, 1), 0);
    assert_eq!(s.consecutive_pending_keepalives, 2);
    assert!(matches!(s.on_frame(&keepalive(3, 0), 0), ReplicationAction::Skip));
    assert_eq!(s.consecutive_pending_keepalives, 0);
    assert_eq!(s.last_lsn, 3);
}

#[test]
fn keepalive_overrun_is_fatal() {
    let mut s = ReplicationState::new(0);
    for _ in 0..5 {
        assert!(matches!(s.on_frame(&keepalive(1, 1), 0), ReplicationAction::Reply(_)));
    }
    assert!(matches!(
        s.on_frame(&keepalive(1, 1), 0),
        ReplicationAction::Fatal(FatalReason::KeepaliveOverrun)
    ));
}

#[test]
fn xlog_data_is_forwarded_and_moves_the_position() {
    let mut s = ReplicationState::new(5);
    match s.on_frame(&xlog(9, b"{\"change\":[]}"), 0) {
        ReplicationAction::Forward(t) => assert_eq!(t, "{\"change\":[]}"),
        other => panic!("unexpected {:?}", other),
    }
    assert_eq!(s.last_lsn, 9);
}

#[test]
fn xlog_data_before_the_position_is_fatal() {
    let mut s = ReplicationState::new(50);
    assert!(matches!(
        s.on_frame(&xlog(9, b"{}"), 0),
        ReplicationAction::Fatal(FatalReason::LsnDecrease)
    ));
    assert_eq!(s.last_lsn, 50);
}

#[test]
fn bad_payloads_and_other_frames_are_skipped() {
    let mut s = ReplicationState::new(1);
    assert!(matches!(s.on_frame(&xlog(9, &[0xff, 0xfe]), 0), ReplicationAction::Skip));
    assert!(matches!(s.on_frame(&xlog(9, b""), 0), ReplicationAction::Skip));
    assert!(matches!(s.on_frame(b"zzz", 0), ReplicationAction::Skip));
    assert!(matches!(s.on_frame(b"", 0), ReplicationAction::Skip));
    assert!(matches!(s.on_frame(b"w123", 0), ReplicationAction::Skip));
    assert!(matches!(s.on_frame(b"k1", 0), ReplicationAction::Skip));
    assert_eq!(s.last_lsn, 1);
}

#[test]
fn frames_are_read_big_endian() {
    match parse_frame(&xlog(0x0102030405060708, b"x")) {
        Frame::XLogData { start, end, timestamp, payload } => {
            assert_eq!(start, 0x0102030405060708);
            assert_eq!(end, 0x0102030405060712);
            assert_eq!(timestamp, 3);
            assert_eq!(payload, b"x".to_vec());
        }
        other => panic!("unexpected {:?}", other),
    }
    assert!(matches!(parse_frame(b"q"), Frame::Unknown { tag: b'q' }));
}

#[test]
fn standby_update_layout() {
    let b = standby_status_update(0xAABB, 0x11);
    assert_eq!(b.len(), 34);
    assert_eq!(b[0], b'r');
    assert_eq!(read_be_u64(&b, 1), 0xAABB);
    assert_eq!(read_be_u64(&b, 9), 0xAABB);
    assert_eq!(read_be_u64(&b, 17), 0xAABB);
    assert_eq!(read_be_u64(&b, 25), 0x11);
    assert_eq!(b[33], 0);
}
