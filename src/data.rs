use vstd::prelude::*;

verus! {

broadcast use vstd::string::to_string_from_display_ensures_for_str;

/// Metadata of a znode.
#[derive(Debug, Clone, Copy, PartialEq, Eq, Structural)]
pub struct Stat {
    pub czxid: i64,
    pub mzxid: i64,
    pub ctime: i64,
    pub mtime: i64,
    pub version: i32,
    pub cversion: i32,
    pub aversion: i32,
    pub ephemeral_owner: i64,
    pub data_length: i32,
    pub num_children: i32,
    pub pzxid: i64,
}

/// Permission bit: read a node's data and list its children.
pub const PERM_READ: u32 = 1;
/// Permission bit: set a node's data.
pub const PERM_WRITE: u32 = 2;
/// Permission bit: create children.
pub const PERM_CREATE: u32 = 4;
/// Permission bit: delete children.
pub const PERM_DELETE: u32 = 8;
/// Permission bit: set permissions.
pub const PERM_ADMIN: u32 = 16;
/// All permission bits.
pub const PERM_ALL: u32 = 31;

/// One access-control entry: permission bits granted to an identity of a scheme.
#[derive(Debug, Clone)]
pub struct Acl {
    pub perms: u32,
    pub scheme: String,
    pub id: String,
}

impl Acl {
    /// A list that grants every permission to anyone.
    pub fn open_unsafe() -> (r: Vec<Acl>)
        ensures
            r@.len() == 1,
            r@[0].perms == PERM_ALL,
            r@[0].scheme@ == "world"@,
            r@[0].id@ == "anyone"@,
    {
        let world = "world".to_string();
        let anyone = "anyone".to_string();
        vec![Acl { perms: PERM_ALL, scheme: world, id: anyone }]
    }
}

} // verus!
