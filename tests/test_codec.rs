use zookeeper_async::codec::{
    encode_multi, encode_set_watches, frame, frame_status, multi_request_frame, read_bool, read_i32, read_i64,
    read_reply_header, write_i32, write_i64, write_request_header, FrameStatus, ReplyHeader,
    DEFAULT_MAX_FRAME,
};
use zookeeper_async::watch::{WatchKind, WatchRegistry};
use zookeeper_async::{Acl, CreateMode, Read, Transaction, ZkError};

#[test]
fn big_endian_round_trip() {
    let mut out = vec![9u8];
    write_i32(&mut out, -2);
    write_i64(&mut out, 0x0102030405060708);
    assert_eq!(out, vec![9, 0xff, 0xff, 0xff, 0xfe, 1, 2, 3, 4, 5, 6, 7, 8]);
    assert_eq!(read_i32(&out, 1), Some((-2, 5)));
    assert_eq!(read_i64(&out, 5), Some((0x0102030405060708, 13)));
    assert_eq!(read_i32(&out, 10), None);
    assert_eq!(read_i64(&out, 6), None);
    assert_eq!(read_bool(&[0, 3], 1), Some((true, 2)));
    assert_eq!(read_bool(&[0], 1), None);
}

#[test]
fn frame_length_cap() {
    assert_eq!(frame_status(&[0, 0], DEFAULT_MAX_FRAME), Ok(FrameStatus::Incomplete));
    assert_eq!(frame_status(&[0, 0, 0, 2, 7], DEFAULT_MAX_FRAME), Ok(FrameStatus::Incomplete));
    assert_eq!(frame_status(&[0, 0, 0, 2, 7, 8], DEFAULT_MAX_FRAME), Ok(FrameStatus::Ready { len: 2 }));
    assert_eq!(frame_status(&[0, 0x40, 0, 1], DEFAULT_MAX_FRAME), Err(ZkError::MarshallingError));
    assert_eq!(frame_status(&[0, 0x40, 0, 0], DEFAULT_MAX_FRAME), Ok(FrameStatus::Incomplete));
    assert_eq!(frame(&vec![5, 6]), vec![0, 0, 0, 2, 5, 6]);
}

#[test]
fn headers() {
    let mut out = Vec::new();
    write_request_header(&mut out, 7, 14);
    assert_eq!(out, vec![0, 0, 0, 7, 0, 0, 0, 14]);
    let buf = vec![0, 0, 0, 3, 0, 0, 0, 0, 0, 0, 1, 0, 0xff, 0xff, 0xff, 0x9b];
    assert_eq!(
        read_reply_header(&buf, 0),
        Some((ReplyHeader { xid: 3, zxid: 256, err: -101 }, 16))
    );
    assert_eq!(read_reply_header(&buf[..15], 0), None);
}

#[test]
fn multi_envelope_bytes() {
    let ops = Transaction::new()
        .create("/a", vec![1], Acl::open_unsafe(), CreateMode::Ephemeral)
        .check("/a", None)
        .into_ops();
    let bytes = encode_multi(&ops);
    let mut expected: Vec<u8> = vec![0, 0, 0, 1, 0, 0xff, 0xff, 0xff, 0xff];
    expected.extend([0, 0, 0, 2, b'/', b'a']);
    expected.extend([0, 0, 0, 1, 1]);
    expected.extend([0, 0, 0, 1, 0, 0, 0, 31]);
    expected.extend([0, 0, 0, 5]);
    expected.extend(b"world");
    expected.extend([0, 0, 0, 6]);
    expected.extend(b"anyone");
    expected.extend([0, 0, 0, 1]);
    expected.extend([0, 0, 0, 13, 0, 0xff, 0xff, 0xff, 0xff]);
    expected.extend([0, 0, 0, 2, b'/', b'a', 0xff, 0xff, 0xff, 0xff]);
    expected.extend([0xff, 0xff, 0xff, 0xff, 1, 0xff, 0xff, 0xff, 0xff]);
    assert_eq!(bytes, expected);

    let rops = Read::new().get_data("/b", true).into_ops();
    let mut expected: Vec<u8> = vec![0, 0, 0, 4, 0, 0xff, 0xff, 0xff, 0xff];
    expected.extend([0, 0, 0, 2, b'/', b'b', 1]);
    expected.extend([0xff, 0xff, 0xff, 0xff, 1, 0xff, 0xff, 0xff, 0xff]);
    assert_eq!(encode_multi(&rops), expected);
}

#[test]
fn set_watches_replays_every_pending_watch() {
    let mut r = WatchRegistry::new();
    r.register("/x", WatchKind::Data, 1);
    r.register("/y", WatchKind::Exists, 2);
    r.register("/z", WatchKind::Data, 3);
    let exists = r.replay(WatchKind::Exists);
    let data = r.replay(WatchKind::Data);
    let children = r.replay(WatchKind::Children);
    assert_eq!(exists, vec!["/y".to_string()]);
    assert_eq!(data, vec!["/x".to_string(), "/z".to_string()]);
    assert!(children.is_empty());
    let bytes = encode_set_watches(5, &exists, &data, &children);
    let mut expected: Vec<u8> = vec![0, 0, 0, 0, 0, 0, 0, 5];
    expected.extend([0, 0, 0, 1, 0, 0, 0, 2, b'/', b'y']);
    expected.extend([0, 0, 0, 2, 0, 0, 0, 2, b'/', b'x', 0, 0, 0, 2, b'/', b'z']);
    expected.extend([0, 0, 0, 0]);
    assert_eq!(bytes, expected);
}

#[test]
fn multi_request_frame_layout() {
    let ops = Transaction::new().delete("/d", Some(7)).into_ops();
    let f = multi_request_frame(9, false, &ops);
    let env = encode_multi(&ops);
    let mut expected = ((env.len() + 8) as u32).to_be_bytes().to_vec();
    expected.extend(9i32.to_be_bytes());
    expected.extend(14i32.to_be_bytes());
    expected.extend(&env);
    assert_eq!(f, expected);
    let rops = Read::new().get_children("/", false).into_ops();
    let f = multi_request_frame(10, true, &rops);
    assert_eq!(&f[8..12], &22i32.to_be_bytes());
}
