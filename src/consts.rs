use vstd::prelude::*;

verus! {

/// Errors reported by the server or by the client core.
#[derive(Debug, Clone, Copy, PartialEq, Eq, Structural)]
pub enum ZkError {
    SystemError,
    RuntimeInconsistency,
    DataInconsistency,
    ConnectionLoss,
    MarshallingError,
    Unimplemented,
    OperationTimeout,
    BadArguments,
    NoNode,
    NoAuth,
    BadVersion,
    NodeExists,
    NotEmpty,
    SessionExpired,
    InvalidACL,
    AuthFailed,
    SessionMoved,
    NoWatcher,
}

/// The wire code of each error.
pub open spec fn error_code(e: ZkError) -> int {
    match e {
        ZkError::SystemError => -1,
        ZkError::RuntimeInconsistency => -2,
        ZkError::DataInconsistency => -3,
        ZkError::ConnectionLoss => -4,
        ZkError::MarshallingError => -5,
        ZkError::Unimplemented => -6,
        ZkError::OperationTimeout => -7,
        ZkError::BadArguments => -8,
        ZkError::NoNode => -101,
        ZkError::NoAuth => -102,
        ZkError::BadVersion => -103,
        ZkError::NodeExists => -108,
        ZkError::NotEmpty => -110,
        ZkError::SessionExpired => -112,
        ZkError::InvalidACL => -114,
        ZkError::AuthFailed => -115,
        ZkError::SessionMoved => -118,
        ZkError::NoWatcher => -123,
    }
}

/// The error whose wire code is `code`, if any (`0` is success, not an error).
pub open spec fn error_of_code(code: int) -> Option<ZkError> {
    if code == -1 { Some(ZkError::SystemError) }
    else if code == -2 { Some(ZkError::RuntimeInconsistency) }
    else if code == -3 { Some(ZkError::DataInconsistency) }
    else if code == -4 { Some(ZkError::ConnectionLoss) }
    else if code == -5 { Some(ZkError::MarshallingError) }
    else if code == -6 { Some(ZkError::Unimplemented) }
    else if code == -7 { Some(ZkError::OperationTimeout) }
    else if code == -8 { Some(ZkError::BadArguments) }
    else if code == -101 { Some(ZkError::NoNode) }
    else if code == -102 { Some(ZkError::NoAuth) }
    else if code == -103 { Some(ZkError::BadVersion) }
    else if code == -108 { Some(ZkError::NodeExists) }
    else if code == -110 { Some(ZkError::NotEmpty) }
    else if code == -112 { Some(ZkError::SessionExpired) }
    else if code == -114 { Some(ZkError::InvalidACL) }
    else if code == -115 { Some(ZkError::AuthFailed) }
    else if code == -118 { Some(ZkError::SessionMoved) }
    else if code == -123 { Some(ZkError::NoWatcher) }
    else { None }
}

impl ZkError {
    /// The wire code of this error.
    pub fn code(&self) -> (r: i32)
        ensures
            r == error_code(*self),
    {
        match self {
            ZkError::SystemError => -1,
            ZkError::RuntimeInconsistency => -2,
            ZkError::DataInconsistency => -3,
            ZkError::ConnectionLoss => -4,
            ZkError::MarshallingError => -5,
            ZkError::Unimplemented => -6,
            ZkError::OperationTimeout => -7,
            ZkError::BadArguments => -8,
            ZkError::NoNode => -101,
            ZkError::NoAuth => -102,
            ZkError::BadVersion => -103,
            ZkError::NodeExists => -108,
            ZkError::NotEmpty => -110,
            ZkError::SessionExpired => -112,
            ZkError::InvalidACL => -114,
            ZkError::AuthFailed => -115,
            ZkError::SessionMoved => -118,
            ZkError::NoWatcher => -123,
        }
    }

    /// The error carried by a reply's `err` field; `None` for success and for
    /// codes that this client does not know.
    pub fn from_code(code: i32) -> (r: Option<ZkError>)
        ensures
            r == error_of_code(code as int),
    {
        if code == -1 { Some(ZkError::SystemError) }
        else if code == -2 { Some(ZkError::RuntimeInconsistency) }
        else if code == -3 { Some(ZkError::DataInconsistency) }
        else if code == -4 { Some(ZkError::ConnectionLoss) }
        else if code == -5 { Some(ZkError::MarshallingError) }
        else if code == -6 { Some(ZkError::Unimplemented) }
        else if code == -7 { Some(ZkError::OperationTimeout) }
        else if code == -8 { Some(ZkError::BadArguments) }
        else if code == -101 { Some(ZkError::NoNode) }
        else if code == -102 { Some(ZkError::NoAuth) }
        else if code == -103 { Some(ZkError::BadVersion) }
        else if code == -108 { Some(ZkError::NodeExists) }
        else if code == -110 { Some(ZkError::NotEmpty) }
        else if code == -112 { Some(ZkError::SessionExpired) }
        else if code == -114 { Some(ZkError::InvalidACL) }
        else if code == -115 { Some(ZkError::AuthFailed) }
        else if code == -118 { Some(ZkError::SessionMoved) }
        else if code == -123 { Some(ZkError::NoWatcher) }
        else { None }
    }
}

/// Decoding a code gives back the error it was made from.
pub proof fn lemma_error_code_round_trip(e: ZkError)
    ensures
        error_of_code(error_code(e)) == Some(e),
{
}

/// How a node is created.
#[derive(Debug, Clone, Copy, PartialEq, Eq, Structural)]
pub enum CreateMode {
    Persistent,
    Ephemeral,
    PersistentSequential,
    EphemeralSequential,
    Container,
    PersistentWithTTL,
    PersistentSequentialWithTTL,
}

/// The flag bits sent on the wire for each mode.
pub open spec fn mode_flags(m: CreateMode) -> i32 {
    match m {
        CreateMode::Persistent => 0,
        CreateMode::Ephemeral => 1,
        CreateMode::PersistentSequential => 2,
        CreateMode::EphemeralSequential => 3,
        CreateMode::Container => 4,
        CreateMode::PersistentWithTTL => 5,
        CreateMode::PersistentSequentialWithTTL => 6,
    }
}

impl CreateMode {
    /// The flag bits sent on the wire.
    pub fn flags(&self) -> (r: i32)
        ensures
            r == mode_flags(*self),
    {
        match self {
            CreateMode::Persistent => 0,
            CreateMode::Ephemeral => 1,
            CreateMode::PersistentSequential => 2,
            CreateMode::EphemeralSequential => 3,
            CreateMode::Container => 4,
            CreateMode::PersistentWithTTL => 5,
            CreateMode::PersistentSequentialWithTTL => 6,
        }
    }
}

} // verus!
