use zookeeper_async::multi_op::{multi_read_result, multi_result, MultiReply, ReadReply};
use zookeeper_async::reply::{decode_multi_read_reply, decode_multi_reply};
use zookeeper_async::{OperationResult, Read, ReadOperationResult, Transaction, ZkError};

fn header(t: i32, done: bool, err: i32) -> Vec<u8> {
    let mut v = t.to_be_bytes().to_vec();
    v.push(if done { 1 } else { 0 });
    v.extend(err.to_be_bytes());
    v
}

fn ustring(s: &str) -> Vec<u8> {
    let mut v = (s.len() as i32).to_be_bytes().to_vec();
    v.extend(s.as_bytes());
    v
}

fn stat_bytes(version: i32, num_children: i32) -> Vec<u8> {
    let mut v = Vec::new();
    for x in [11i64, 12, 13, 14] {
        v.extend(x.to_be_bytes());
    }
    for x in [version, 0, 0] {
        v.extend(x.to_be_bytes());
    }
    v.extend(0i64.to_be_bytes());
    for x in [0i32, num_children] {
        v.extend(x.to_be_bytes());
    }
    v.extend(15i64.to_be_bytes());
    v
}

#[test]
fn decode_successful_multi_reply() {
    let mut buf = header(1, false, 0);
    buf.extend(ustring("/test"));
    buf.extend(header(15, false, 0));
    buf.extend(ustring("/test/c1"));
    buf.extend(stat_bytes(0, 0));
    buf.extend(header(5, false, 0));
    buf.extend(stat_bytes(1, 0));
    buf.extend(header(13, false, 0));
    buf.extend(header(2, false, 0));
    buf.extend(header(-1, true, -1));
    let replies = decode_multi_reply(&buf).unwrap();
    assert_eq!(replies.len(), 5);
    assert!(matches!(&replies[0], MultiReply::Create(p) if p == "/test"));
    assert!(matches!(&replies[1], MultiReply::Create2(p, s) if p == "/test/c1" && s.czxid == 11 && s.pzxid == 15));
    assert!(matches!(&replies[2], MultiReply::SetData(s) if s.version == 1));
    assert!(matches!(&replies[3], MultiReply::Check));
    assert!(matches!(&replies[4], MultiReply::Delete));
}

#[test]
fn decode_failed_multi_reply_then_compose() {
    let ops = Transaction::new()
        .create("/test", vec![], vec![], zookeeper_async::CreateMode::Persistent)
        .check("/test", Some(2))
        .into_ops();
    let mut buf = header(-1, false, 0);
    buf.extend(0i32.to_be_bytes());
    buf.extend(header(-1, false, -103));
    buf.extend((-103i32).to_be_bytes());
    buf.extend(header(-1, true, -1));
    let replies = decode_multi_reply(&buf).unwrap();
    assert!(matches!(replies[0], MultiReply::RolledBack));
    assert!(matches!(replies[1], MultiReply::Error(ZkError::BadVersion)));
    assert_eq!(multi_result(&ops, replies).err(), Some(ZkError::BadVersion));
}

#[test]
fn decode_then_compose_success() {
    let ops = Transaction::new()
        .create("/test", vec![], vec![], zookeeper_async::CreateMode::Persistent)
        .check("/test", None)
        .into_ops();
    let mut buf = header(1, false, 0);
    buf.extend(ustring("/test"));
    buf.extend(header(13, false, 0));
    buf.extend(header(-1, true, -1));
    let results = multi_result(&ops, decode_multi_reply(&buf).unwrap()).unwrap();
    assert!(matches!(&results[0], OperationResult::Create(p) if p == "/test"));
    assert!(matches!(&results[1], OperationResult::Check));
}

#[test]
fn decode_malformed_multi_reply() {
    assert_eq!(decode_multi_reply(&[]).err(), Some(ZkError::MarshallingError));
    let mut buf = header(99, false, 0);
    buf.extend(header(-1, true, -1));
    assert_eq!(decode_multi_reply(&buf).err(), Some(ZkError::MarshallingError));
    let mut buf = header(1, false, 0);
    buf.extend([0, 0, 0, 2, 0xff, 0xfe]);
    buf.extend(header(-1, true, -1));
    assert_eq!(decode_multi_reply(&buf).err(), Some(ZkError::MarshallingError));
    let mut buf = header(-1, true, -1);
    buf.push(0);
    assert_eq!(decode_multi_reply(&buf).err(), Some(ZkError::MarshallingError));
    assert_eq!(decode_multi_reply(&header(-1, true, -1)).unwrap().len(), 0);
}

#[test]
fn decode_multi_read_reply_entries() {
    let ops = Read::new().get_data("/test", false).get_children("/test", false).into_ops();
    let mut buf = header(4, false, 0);
    buf.extend([0, 0, 0, 3, 1, 2, 3]);
    buf.extend(stat_bytes(2, 1));
    buf.extend(header(8, false, 0));
    buf.extend(1i32.to_be_bytes());
    buf.extend(ustring("child1"));
    buf.extend(header(-1, true, -1));
    let replies = decode_multi_read_reply(&buf).unwrap();
    assert!(matches!(&replies[0], ReadReply::GetData(d, s) if *d == vec![1, 2, 3] && s.num_children == 1));
    let results = multi_read_result(&ops, replies).unwrap();
    assert!(matches!(&results[1], ReadOperationResult::GetChildren(c) if *c == vec!["child1".to_string()]));
}

#[test]
fn decode_multi_read_error_and_null_data() {
    let mut buf = header(-1, false, -101);
    buf.extend((-101i32).to_be_bytes());
    buf.extend(header(-1, true, -1));
    let replies = decode_multi_read_reply(&buf).unwrap();
    assert!(matches!(replies[0], ReadReply::Error(ZkError::NoNode)));

    let mut buf = header(4, false, 0);
    buf.extend((-1i32).to_be_bytes());
    buf.extend(stat_bytes(0, 0));
    buf.extend(header(-1, true, -1));
    let replies = decode_multi_read_reply(&buf).unwrap();
    assert!(matches!(&replies[0], ReadReply::GetData(d, _) if d.is_empty()));
}
