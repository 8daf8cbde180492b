//! Client core of a ZooKeeper protocol driver, with its contracts proved by
//! Verus: the multi-operation composer and the codec for its envelopes and
//! replies, request identifiers and the in-flight queue, the watch registry,
//! session decisions, connect strings, and path and chroot handling.

pub mod consts;
pub mod data;
pub mod proto;
pub mod multi_op;
pub mod request;
pub mod watch;
pub mod session;
pub mod paths;
pub mod hosts;
pub mod codec;
pub mod reply;
pub mod listeners;

pub use consts::{CreateMode, ZkError};
pub use data::{Acl, Stat};
pub use multi_op::{OperationResult, Read, ReadOperationResult, Transaction, ZkResult};
