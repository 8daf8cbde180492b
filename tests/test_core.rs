use zookeeper_async::listeners::Listeners;
use zookeeper_async::hosts::parse_connect_string;
use zookeeper_async::paths::{strip_chroot, validate_path, with_chroot};
use zookeeper_async::request::{InFlight, Inbound, Outbox, Pending, XidCounter};
use zookeeper_async::session::{
    initial_backoff_ms, next_backoff_ms, ping_due, read_timed_out, ConnState, ConnectResponse,
    Session,
};
use zookeeper_async::watch::{
    decode_watched_event, should_register, EventType, WatchKind, WatchRegistry,
};
use zookeeper_async::ZkError;

#[test]
fn xids_strictly_increase() {
    let mut c = XidCounter::new();
    let a = c.allocate().unwrap();
    let b = c.allocate().unwrap();
    let d = c.allocate().unwrap();
    assert_eq!((a, b, d), (1, 2, 3));
    assert!(a < b && b < d);
}

#[test]
fn in_flight_fifo() {
    let mut q = InFlight::new();
    assert!(q.send(Pending { xid: 1, opcode: 1 }));
    assert!(q.send(Pending { xid: 2, opcode: 4 }));
    assert!(!q.send(Pending { xid: 2, opcode: 4 }));
    assert!(!q.send(Pending { xid: -2, opcode: 11 }));
    assert_eq!(q.receive(2, 0), Inbound::Mismatch);
    assert_eq!(q.len(), 2);
    assert_eq!(q.receive(1, 0), Inbound::Reply(Pending { xid: 1, opcode: 1 }));
    assert_eq!(q.receive(2, 0), Inbound::Reply(Pending { xid: 2, opcode: 4 }));
    assert_eq!(q.len(), 0);
}

#[test]
fn in_flight_reserved_frames() {
    let mut q = InFlight::new();
    assert!(q.send(Pending { xid: 5, opcode: 3 }));
    assert_eq!(q.receive(-1, 0), Inbound::Notification);
    assert_eq!(q.receive(-2, 0), Inbound::PingAck);
    assert_eq!(q.receive(-4, 0), Inbound::AuthAck { failed: false });
    assert_eq!(q.receive(-4, -115), Inbound::AuthAck { failed: true });
    assert_eq!(q.receive(-8, 0), Inbound::SetWatchesAck);
    assert_eq!(q.len(), 1);
}

#[test]
fn watch_fires_once_in_kind_order() {
    let mut r = WatchRegistry::new();
    r.register("/w", WatchKind::Children, 1);
    r.register("/w", WatchKind::Data, 2);
    r.register("/w", WatchKind::Exists, 3);
    r.register("/other", WatchKind::Exists, 4);
    r.register("/w", WatchKind::Exists, 5);
    assert_eq!(r.fire(EventType::NodeDeleted, "/w"), vec![3, 5, 2, 1]);
    assert_eq!(r.len(), 1);
    assert!(r.fire(EventType::NodeDeleted, "/w").is_empty());
}

#[test]
fn watch_created_event() {
    let mut r = WatchRegistry::new();
    r.register("/w", WatchKind::Exists, 1);
    r.register("/w", WatchKind::Children, 2);
    assert!(r.fire(EventType::SessionEvent, "/w").is_empty());
    assert_eq!(r.fire(EventType::NodeCreated, "/w"), vec![1]);
    assert_eq!(r.len(), 1);
    assert_eq!(r.fire(EventType::NodeChildrenChanged, "/w"), vec![2]);
    assert_eq!(r.len(), 0);
}

#[test]
fn watch_survives_reconnect_and_fires_once() {
    let mut r = WatchRegistry::new();
    let mut s = Session::new(10000, false);
    s.on_connect_response(ConnectResponse {
        protocol_version: 0,
        timeout_ms: 10000,
        session_id: 77,
        password: vec![9; 16],
        read_only: false,
    });
    r.register("/w", WatchKind::Exists, 1);
    assert_eq!(s.on_connection_lost(500), ConnState::Connecting);
    let req = s.connect_request();
    assert_eq!(req.session_id, 77);
    let st = s.on_connect_response(ConnectResponse {
        protocol_version: 0,
        timeout_ms: 10000,
        session_id: 77,
        password: vec![9; 16],
        read_only: false,
    });
    assert_eq!(st, ConnState::Connected);
    assert_eq!(r.fire(EventType::NodeCreated, "/w"), vec![1]);
    assert!(r.fire(EventType::NodeCreated, "/w").is_empty());
}

#[test]
fn session_resume_keeps_identity() {
    let mut s = Session::new(3000, false);
    assert_eq!(s.connect_request().session_id, 0);
    assert_eq!(s.connect_request().password, vec![0u8; 16]);
    let st = s.on_connect_response(ConnectResponse {
        protocol_version: 0,
        timeout_ms: 4000,
        session_id: 42,
        password: vec![1; 16],
        read_only: false,
    });
    assert_eq!(st, ConnState::Connected);
    assert_eq!(s.on_connection_lost(3999), ConnState::Connecting);
    let req = s.connect_request();
    assert_eq!(req.session_id, 42);
    assert_eq!(req.password, vec![1u8; 16]);
    assert_eq!(req.timeout_ms, 4000);
}

#[test]
fn session_expires() {
    let mut s = Session::new(3000, false);
    s.on_connect_response(ConnectResponse {
        protocol_version: 0,
        timeout_ms: 4000,
        session_id: 42,
        password: vec![1; 16],
        read_only: true,
    });
    assert_eq!(s.state, ConnState::ConnectedReadOnly);
    assert_eq!(s.on_connection_lost(4001), ConnState::Expired);
    assert_eq!(s.call_error(), Some(ZkError::SessionExpired));
    assert_eq!(s.on_connection_lost(1), ConnState::Expired);

    let mut s = Session::new(3000, false);
    let st = s.on_connect_response(ConnectResponse {
        protocol_version: 0,
        timeout_ms: 0,
        session_id: 42,
        password: vec![1; 16],
        read_only: false,
    });
    assert_eq!(st, ConnState::Expired);
    assert_eq!(s.session_id, 0);
    s.close();
    assert_eq!(s.call_error(), Some(ZkError::ConnectionLoss));
}

#[test]
fn zxid_never_decreases() {
    let mut s = Session::new(3000, false);
    s.observe_zxid(10);
    s.observe_zxid(4);
    assert_eq!(s.last_zxid_seen, 10);
    s.observe_zxid(11);
    assert_eq!(s.last_zxid_seen, 11);
}

#[test]
fn liveness_and_backoff() {
    assert!(!ping_due(1000, 3000));
    assert!(ping_due(1001, 3000));
    assert!(!read_timed_out(1999, 3000));
    assert!(read_timed_out(2000, 3000));
    assert_eq!(initial_backoff_ms(10000, 3), 3333);
    assert_eq!(initial_backoff_ms(2000, 3), 1000);
    assert_eq!(initial_backoff_ms(500, 0), 1000);
    assert_eq!(next_backoff_ms(3333), 6666);
    assert_eq!(next_backoff_ms(40000), 60000);
}

#[test]
fn path_validation() {
    assert!(validate_path("/").is_ok());
    assert!(validate_path("/a/b.c").is_ok());
    assert!(validate_path("/a/..b").is_ok());
    for bad in ["", "a", "/a/", "//a", "/a//b", "/a/.", "/a/../b", "/a\u{0}b", "/.", "/a\nb"] {
        assert_eq!(validate_path(bad), Err(ZkError::BadArguments), "{:?}", bad);
    }
}

#[test]
fn chroot_paths() {
    assert_eq!(with_chroot("/a", "/b"), "/a/b");
    assert_eq!(with_chroot("/a", "/"), "/a");
    assert_eq!(with_chroot("", "/b"), "/b");
    assert_eq!(strip_chroot("/a", "/a/b"), Some("/b".to_string()));
    assert_eq!(strip_chroot("/a", "/a"), Some("/".to_string()));
    assert_eq!(strip_chroot("/a", "/ab"), None);
    assert_eq!(strip_chroot("/a", "/c/b"), None);
    assert_eq!(strip_chroot("", "/c"), Some("/c".to_string()));
}

#[test]
fn chroot_event_reaches_user_watch() {
    let mut r = WatchRegistry::new();
    r.register("/b", WatchKind::Exists, 8);
    let user = strip_chroot("/a", "/a/b").unwrap();
    assert_eq!(r.fire(EventType::NodeCreated, &user), vec![8]);
}

#[test]
fn connect_string_hosts_and_chroot() {
    let c = parse_connect_string("a:2181,b:2182/app/x").unwrap();
    assert_eq!(c.hosts, vec!["a:2181".to_string(), "b:2182".to_string()]);
    assert_eq!(c.chroot, "/app/x");
    let c = parse_connect_string("a:2181").unwrap();
    assert_eq!(c.hosts, vec!["a:2181".to_string()]);
    assert_eq!(c.chroot, "");
    let c = parse_connect_string("a:2181/").unwrap();
    assert_eq!(c.chroot, "");
    assert_eq!(parse_connect_string("a:2181,,b:1").err().map(|_| ()), Some(()));
    assert!(matches!(parse_connect_string(""), Err(ZkError::BadArguments)));
    assert!(matches!(parse_connect_string("a:1/app/"), Err(ZkError::BadArguments)));
    assert!(matches!(parse_connect_string("a:1//x"), Err(ZkError::BadArguments)));
}

#[test]
fn requeue_keeps_xid_order() {
    let mut q = InFlight::new();
    assert!(q.send(Pending { xid: 1, opcode: 4 }));
    assert!(q.send(Pending { xid: 2, opcode: 5 }));
    let mut unsent = vec![Pending { xid: 3, opcode: 1 }];
    q.requeue(&mut unsent);
    assert_eq!(q.len(), 0);
    assert_eq!(unsent.iter().map(|p| p.xid).collect::<Vec<i32>>(), vec![1, 2, 3]);
}

#[test]
fn watch_registration_after_reply() {
    assert!(should_register(WatchKind::Data, 0));
    assert!(!should_register(WatchKind::Data, -101));
    assert!(should_register(WatchKind::Exists, -101));
    assert!(!should_register(WatchKind::Exists, -102));
}

#[test]
fn auth_failure_is_terminal() {
    let mut s = Session::new(3000, false);
    s.on_auth_result(false);
    assert_eq!(s.state, ConnState::NotConnected);
    s.on_auth_result(true);
    assert_eq!(s.state, ConnState::AuthFailed);
    assert_eq!(s.call_error(), Some(ZkError::AuthFailed));
    assert_eq!(s.on_connection_lost(1), ConnState::AuthFailed);
}

#[test]
fn outbox_submission_order() {
    let mut o = Outbox::new();
    assert_eq!(o.submit(4), Some(1));
    assert_eq!(o.submit(5), Some(2));
    let written = o.flush();
    assert_eq!(written.iter().map(|p| p.xid).collect::<Vec<i32>>(), vec![1, 2]);
    assert_eq!(o.submit(3), Some(3));
    assert_eq!(o.receive(2, 0), Inbound::Mismatch);
    assert_eq!(o.receive(1, 0), Inbound::Reply(Pending { xid: 1, opcode: 4 }));
    o.connection_lost();
    let again = o.flush();
    assert_eq!(again.iter().map(|p| p.xid).collect::<Vec<i32>>(), vec![2, 3]);
    assert_eq!(o.receive(2, 0), Inbound::Reply(Pending { xid: 2, opcode: 5 }));
    assert_eq!(o.receive(3, 0), Inbound::Reply(Pending { xid: 3, opcode: 3 }));
}

#[test]
fn chroot_dispatch_of_decoded_event() {
    let mut body = 1i32.to_be_bytes().to_vec();
    body.extend(3i32.to_be_bytes());
    body.extend(4i32.to_be_bytes());
    body.extend(b"/a/b");
    let ev = decode_watched_event(&body, 0).unwrap();
    assert_eq!(ev.event_type, EventType::NodeCreated);
    assert_eq!(ev.state, 3);
    assert_eq!(ev.path, "/a/b");
    let mut r = WatchRegistry::new();
    r.register("/b", WatchKind::Exists, 8);
    r.register("/b", WatchKind::Children, 9);
    assert!(r.dispatch("/a", ev.event_type, "/c/b").is_empty());
    assert_eq!(r.dispatch("/a", ev.event_type, &ev.path), vec![8]);
    assert_eq!(r.len(), 1);
    assert!(decode_watched_event(&body[..10], 0).is_none());
    let mut bad = 9i32.to_be_bytes().to_vec();
    bad.extend(&body[4..]);
    assert!(decode_watched_event(&bad, 0).is_none());
}

#[test]
fn listener_subscriptions() {
    let mut l = Listeners::new();
    let a = l.subscribe().unwrap();
    let b = l.subscribe().unwrap();
    let c = l.subscribe().unwrap();
    assert_eq!(l.recipients(), vec![a, b, c]);
    l.unsubscribe(b);
    assert_eq!(l.recipients(), vec![a, c]);
    l.unsubscribe(b);
    assert_eq!(l.recipients(), vec![a, c]);
    let d = l.subscribe().unwrap();
    assert!(d != b);
    assert_eq!(l.recipients(), vec![a, c, d]);
}
