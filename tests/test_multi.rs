use zookeeper_async::multi_op::{multi_read_result, multi_result, MultiReply, ReadReply};
use zookeeper_async::proto::Op;
use zookeeper_async::{
    Acl, CreateMode, OperationResult, Read, ReadOperationResult, Stat, Transaction, ZkError,
};

fn stat(version: i32) -> Stat {
    Stat {
        czxid: 1,
        mzxid: 1,
        ctime: 0,
        mtime: 0,
        version,
        cversion: 0,
        aversion: 0,
        ephemeral_owner: 0,
        data_length: 0,
        num_children: 0,
        pzxid: 1,
    }
}

#[test]
fn zk_multi() {
    let ops = Transaction::new()
        .create("/test", vec![], Acl::open_unsafe().clone(), CreateMode::Persistent)
        .create("/test/child1", vec![], Acl::open_unsafe().clone(), CreateMode::Persistent)
        .check("/test", Some(0))
        .into_ops();
    assert_eq!(ops.len(), 3);
    let codes: Vec<i32> = ops.iter().map(|o| o.opcode()).collect();
    assert_eq!(codes, vec![1, 1, 13]);
    match &ops[2] {
        Op::Check(c) => {
            assert_eq!(c.path, "/test");
            assert_eq!(c.version, 0);
        }
        _ => panic!("expected a check"),
    }
    let replies = vec![
        MultiReply::Create("/test".to_string()),
        MultiReply::Create("/test/child1".to_string()),
        MultiReply::Check,
    ];
    let results = multi_result(&ops, replies);
    assert!(results.is_ok());
    let results = results.unwrap();
    assert_eq!(results.len(), 3);
    assert!(matches!(&results[0], OperationResult::Create(p) if p == "/test"));
    assert!(matches!(&results[1], OperationResult::Create(p) if p == "/test/child1"));
    assert!(matches!(&results[2], OperationResult::Check));
}

#[test]
fn zk_multi_w_set_data() {
    let ops = Transaction::new()
        .create2("/test", vec![], Acl::open_unsafe().clone(), CreateMode::Persistent)
        .create2("/test/child1", vec![], Acl::open_unsafe().clone(), CreateMode::Persistent)
        .set_data("/test", vec![1, 2, 3], None)
        .check("/test", Some(1))
        .into_ops();
    assert_eq!(ops.len(), 4);
    match &ops[2] {
        Op::SetData(s) => {
            assert_eq!(s.data, vec![1, 2, 3]);
            assert_eq!(s.version, -1);
        }
        _ => panic!("expected a set-data"),
    }
    let replies = vec![
        MultiReply::Create2("/test".to_string(), stat(0)),
        MultiReply::Create2("/test/child1".to_string(), stat(0)),
        MultiReply::SetData(stat(1)),
        MultiReply::Check,
    ];
    let results = multi_result(&ops, replies).unwrap();
    assert_eq!(results.len(), 4);
    assert!(matches!(&results[2], OperationResult::SetData(s) if s.version == 1));
}

#[test]
fn zk_multi_w_delete() {
    let ops = Transaction::new()
        .create("/test", vec![], Acl::open_unsafe().clone(), CreateMode::Persistent)
        .create("/test/child1", vec![], Acl::open_unsafe().clone(), CreateMode::Persistent)
        .delete("/test/child1", None)
        .into_ops();
    let replies = vec![
        MultiReply::Create("/test".to_string()),
        MultiReply::Create("/test/child1".to_string()),
        MultiReply::Delete,
    ];
    let results = multi_result(&ops, replies).unwrap();
    assert_eq!(results.len(), 3);
    assert!(matches!(&results[2], OperationResult::Delete));
}

#[test]
fn zk_multi_error() {
    let ops = Transaction::new()
        .create("/test", vec![], Acl::open_unsafe().clone(), CreateMode::Persistent)
        .check("/test", Some(2))
        .into_ops();
    let replies = vec![MultiReply::RolledBack, MultiReply::Error(ZkError::BadVersion)];
    let Err(error) = multi_result(&ops, replies) else {
        panic!("Expected an error");
    };
    assert_eq!(error, ZkError::BadVersion);

    let ops = Transaction::new()
        .create("/test", vec![], Acl::open_unsafe().clone(), CreateMode::Persistent)
        .check("/test-wrong", None)
        .into_ops();
    let replies = vec![MultiReply::RolledBack, MultiReply::Error(ZkError::NoNode)];
    let Err(error) = multi_result(&ops, replies) else {
        panic!("Expected an error");
    };
    assert_eq!(error, ZkError::NoNode);

    let ops = Transaction::new()
        .create("/test", vec![], Acl::open_unsafe().clone(), CreateMode::Persistent)
        .create("/test", vec![], Acl::open_unsafe().clone(), CreateMode::Persistent)
        .into_ops();
    let replies = vec![MultiReply::RolledBack, MultiReply::Error(ZkError::NodeExists)];
    let Err(error) = multi_result(&ops, replies) else {
        panic!("Expected an error");
    };
    assert_eq!(error, ZkError::NodeExists);
}

#[test]
fn zk_multi_read() {
    let ops = Read::new().get_data("/test", false).get_children("/test", false).into_ops();
    assert_eq!(ops.len(), 2);
    let codes: Vec<i32> = ops.iter().map(|o| o.opcode()).collect();
    assert_eq!(codes, vec![4, 8]);
    let replies = vec![
        ReadReply::GetData(vec![], stat(0)),
        ReadReply::GetChildren(vec!["child1".to_string()]),
    ];
    let results = multi_read_result(&ops, replies).unwrap();
    assert_eq!(results.len(), 2);
    assert!(matches!(&results[1], ReadOperationResult::GetChildren(c) if c.len() == 1));
}

#[test]
fn zk_multi_read_error() {
    let ops = Read::new().get_data("/test", false).into_ops();
    let Err(error) = multi_read_result(&ops, vec![ReadReply::Error(ZkError::NoNode)]) else {
        panic!("Expected an error");
    };
    assert_eq!(error, ZkError::NoNode);
}

#[test]
fn multi_error_skips_runtime_inconsistency() {
    let ops = Transaction::new()
        .create("/a", vec![], vec![], CreateMode::Persistent)
        .create("/b", vec![], vec![], CreateMode::Persistent)
        .create("/c", vec![], vec![], CreateMode::Persistent)
        .into_ops();
    let replies = vec![
        MultiReply::Error(ZkError::RuntimeInconsistency),
        MultiReply::Error(ZkError::NodeExists),
        MultiReply::Error(ZkError::NoNode),
    ];
    assert_eq!(multi_result(&ops, replies).err(), Some(ZkError::NodeExists));
}

#[test]
fn multi_error_only_runtime_inconsistency() {
    let ops = Transaction::new().create("/a", vec![], vec![], CreateMode::Persistent).into_ops();
    let replies = vec![MultiReply::Error(ZkError::RuntimeInconsistency)];
    assert_eq!(multi_result(&ops, replies).err(), Some(ZkError::RuntimeInconsistency));
    let replies = vec![MultiReply::RolledBack];
    assert_eq!(multi_result(&ops, replies).err(), Some(ZkError::RuntimeInconsistency));
}

#[test]
fn multi_reply_shape_mismatch() {
    let ops = Transaction::new().create("/a", vec![], vec![], CreateMode::Persistent).into_ops();
    assert_eq!(multi_result(&ops, vec![]).err(), Some(ZkError::MarshallingError));
    assert_eq!(
        multi_result(&ops, vec![MultiReply::Delete]).err(),
        Some(ZkError::MarshallingError)
    );
    let rops = Read::new().get_data("/a", true).into_ops();
    assert_eq!(
        multi_read_result(&rops, vec![ReadReply::GetChildren(vec![])]).err(),
        Some(ZkError::MarshallingError)
    );
}

#[test]
fn empty_transaction_commits_nothing() {
    let ops = Transaction::new().into_ops();
    assert!(multi_result(&ops, vec![]).unwrap().is_empty());
}

#[test]
fn builders_fill_requests() {
    let ops = Transaction::new()
        .create_ttl("/t", vec![7], vec![], CreateMode::PersistentWithTTL, 5000)
        .delete("/d", Some(3))
        .into_ops();
    match &ops[0] {
        Op::CreateTtl(c) => {
            assert_eq!(c.path, "/t");
            assert_eq!(c.data, vec![7]);
            assert_eq!(c.flags, 5);
            assert_eq!(c.ttl, 5000);
        }
        _ => panic!("expected a create-ttl"),
    }
    match &ops[1] {
        Op::Delete(d) => {
            assert_eq!(d.path, "/d");
            assert_eq!(d.version, 3);
        }
        _ => panic!("expected a delete"),
    }
    let rops = Read::new().get_children("/x", true).into_ops();
    match &rops[0] {
        Op::GetChildren(g) => {
            assert_eq!(g.path, "/x");
            assert!(g.watch);
        }
        _ => panic!("expected a get-children"),
    }
}

#[test]
fn error_codes_round_trip() {
    let all = [
        ZkError::SystemError,
        ZkError::RuntimeInconsistency,
        ZkError::DataInconsistency,
        ZkError::ConnectionLoss,
        ZkError::MarshallingError,
        ZkError::Unimplemented,
        ZkError::OperationTimeout,
        ZkError::BadArguments,
        ZkError::NoNode,
        ZkError::NoAuth,
        ZkError::BadVersion,
        ZkError::NodeExists,
        ZkError::NotEmpty,
        ZkError::SessionExpired,
        ZkError::InvalidACL,
        ZkError::AuthFailed,
        ZkError::SessionMoved,
        ZkError::NoWatcher,
    ];
    for e in all {
        assert_eq!(ZkError::from_code(e.code()), Some(e));
    }
    assert_eq!(ZkError::NoNode.code(), -101);
    assert_eq!(ZkError::NodeExists.code(), -108);
    assert_eq!(ZkError::from_code(0), None);
    assert_eq!(ZkError::from_code(-103), Some(ZkError::BadVersion));
}

#[test]
fn create_mode_flags() {
    assert_eq!(CreateMode::Persistent.flags(), 0);
    assert_eq!(CreateMode::Ephemeral.flags(), 1);
    assert_eq!(CreateMode::PersistentSequential.flags(), 2);
    assert_eq!(CreateMode::EphemeralSequential.flags(), 3);
    assert_eq!(CreateMode::Container.flags(), 4);
    assert_eq!(CreateMode::PersistentWithTTL.flags(), 5);
    assert_eq!(CreateMode::PersistentSequentialWithTTL.flags(), 6);
}

#[test]
fn open_unsafe_acl() {
    let acl = Acl::open_unsafe();
    assert_eq!(acl.len(), 1);
    assert_eq!(acl[0].perms, 31);
    assert_eq!(acl[0].scheme, "world");
    assert_eq!(acl[0].id, "anyone");
}
