use vstd::prelude::*;
use crate::data::Acl;

verus! {

/// Body of a create request (also used by create2).
#[derive(Debug)]
pub struct CreateRequest {
    pub path: String,
    pub data: Vec<u8>,
    pub acl: Vec<Acl>,
    pub flags: i32,
}

/// Body of a create request with a time to live in milliseconds.
#[derive(Debug)]
pub struct CreateTTLRequest {
    pub path: String,
    pub data: Vec<u8>,
    pub acl: Vec<Acl>,
    pub flags: i32,
    pub ttl: i64,
}

/// Body of a set-data request; `version == -1` accepts any version.
#[derive(Debug)]
pub struct SetDataRequest {
    pub path: String,
    pub data: Vec<u8>,
    pub version: i32,
}

/// Body of a delete request; `version == -1` accepts any version.
#[derive(Debug)]
pub struct DeleteRequest {
    pub path: String,
    pub version: i32,
}

/// Body of a check request; `version == -1` only asks that the node exists.
#[derive(Debug)]
pub struct CheckRequest {
    pub path: String,
    pub version: i32,
}

/// Body of a get-data or get-children request.
#[derive(Debug)]
pub struct GetDataRequest {
    pub path: String,
    pub watch: bool,
}

/// One sub-operation of a multi request.
#[derive(Debug)]
pub enum Op {
    Create(CreateRequest),
    Create2(CreateRequest),
    CreateTtl(CreateTTLRequest),
    SetData(SetDataRequest),
    Delete(DeleteRequest),
    Check(CheckRequest),
    GetData(GetDataRequest),
    GetChildren(GetDataRequest),
}

/// Opcodes of the sub-operations.
pub const OP_CREATE: i32 = 1;
pub const OP_DELETE: i32 = 2;
pub const OP_GET_DATA: i32 = 4;
pub const OP_SET_DATA: i32 = 5;
pub const OP_GET_CHILDREN: i32 = 8;
pub const OP_CHECK: i32 = 13;
pub const OP_MULTI: i32 = 14;
pub const OP_CREATE2: i32 = 15;
pub const OP_CREATE_TTL: i32 = 21;
/// Opcode of a multi-read request.
pub const OP_MULTI_READ: i32 = 22;

/// The opcode that a sub-operation is sent under.
pub open spec fn opcode_of(op: Op) -> i32 {
    match op {
        Op::Create(_) => OP_CREATE,
        Op::Create2(_) => OP_CREATE2,
        Op::CreateTtl(_) => OP_CREATE_TTL,
        Op::SetData(_) => OP_SET_DATA,
        Op::Delete(_) => OP_DELETE,
        Op::Check(_) => OP_CHECK,
        Op::GetData(_) => OP_GET_DATA,
        Op::GetChildren(_) => OP_GET_CHILDREN,
    }
}

/// Whether a sub-operation belongs in a read envelope rather than a write one.
pub open spec fn is_read_op(op: Op) -> bool {
    op is GetData || op is GetChildren
}

impl Op {
    /// The opcode this sub-operation is sent under.
    pub fn opcode(&self) -> (r: i32)
        ensures
            r == opcode_of(*self),
    {
        match self {
            Op::Create(_) => OP_CREATE,
            Op::Create2(_) => OP_CREATE2,
            Op::CreateTtl(_) => OP_CREATE_TTL,
            Op::SetData(_) => OP_SET_DATA,
            Op::Delete(_) => OP_DELETE,
            Op::Check(_) => OP_CHECK,
            Op::GetData(_) => OP_GET_DATA,
            Op::GetChildren(_) => OP_GET_CHILDREN,
        }
    }
}

} // verus!
