use vstd::prelude::*;
use crate::consts::{mode_flags, CreateMode, ZkError};
use crate::data::{Acl, Stat};
use crate::proto::{
    is_read_op, CheckRequest, CreateRequest, CreateTTLRequest, DeleteRequest, GetDataRequest, Op,
    SetDataRequest,
};

verus! {

broadcast use vstd::string::to_string_from_display_ensures_for_str;

/// Result of a call that the server may refuse.
pub type ZkResult<T> = Result<T, ZkError>;

/// Per-operation result of a committed transaction.
#[derive(Debug)]
pub enum OperationResult {
    Create(String),
    Create2(String, Stat),
    CreateTtl(String, Stat),
    SetData(Stat),
    Delete,
    Check,
}

/// Per-operation result of a multi-read.
#[derive(Debug)]
pub enum ReadOperationResult {
    GetData(Vec<u8>, Stat),
    GetChildren(Vec<String>),
}

/// Builder of an atomic write transaction: sub-operations in submission order.
pub struct Transaction {
    operations: Vec<Op>,
}

/// Builder of a multi-read: sub-operations in submission order.
pub struct Read {
    operations: Vec<Op>,
}

/// `version`, or `-1` ("any version") where none is given.
pub open spec fn version_or_any(version: Option<i32>) -> i32 {
    match version {
        Some(v) => v,
        None => -1i32,
    }
}

fn version_or_any_exec(version: Option<i32>) -> (r: i32)
    ensures
        r == version_or_any(version),
{
    match version {
        Some(v) => v,
        None => -1i32,
    }
}

/// `after` is `before` with one more operation at its end.
pub open spec fn appended(before: Seq<Op>, after: Seq<Op>) -> bool {
    &&& after.len() == before.len() + 1
    &&& after.drop_last() == before
}

fn push_op(ops: &mut Vec<Op>, op: Op)
    ensures
        appended(old(ops)@, final(ops)@),
        final(ops)@ == old(ops)@.push(op),
{
    ops.push(op);
    proof {
        assert(final(ops)@.drop_last() =~= old(ops)@);
    }
}

impl View for Transaction {
    type V = Seq<Op>;

    closed spec fn view(&self) -> Seq<Op> {
        self.operations@
    }
}

impl View for Read {
    type V = Seq<Op>;

    closed spec fn view(&self) -> Seq<Op> {
        self.operations@
    }
}

impl Transaction {
    /// Every sub-operation is a write.
    pub open spec fn wf(&self) -> bool {
        forall|i: int| 0 <= i < self@.len() ==> !is_read_op(#[trigger] self@[i])
    }

    fn push(self, op: Op) -> (r: Self)
        requires
            self.wf(),
            !is_read_op(op),
        ensures
            r.wf(),
            appended(self@, r@),
            r@.last() == op,
    {
        let ghost before = self@;
        let mut operations = self.operations;
        push_op(&mut operations, op);
        proof {
            assert forall|i: int| 0 <= i < operations@.len() implies !is_read_op(
                #[trigger] operations@[i],
            ) by {
                if i < before.len() {
                    assert(operations@[i] == before[i]);
                }
            }
        }
        Transaction { operations }
    }

    /// An empty transaction.
    pub fn new() -> (r: Self)
        ensures
            r@ == Seq::<Op>::empty(),
            r.wf(),
    {
        Transaction { operations: Vec::new() }
    }

    /// Appends the creation of a node.
    pub fn create(self, path: &str, data: Vec<u8>, acl: Vec<Acl>, mode: CreateMode) -> (r: Self)
        requires
            self.wf(),
        ensures
            r.wf(),
            appended(self@, r@),
            r@.last() matches Op::Create(q) && q.path@ == path@ && q.data == data && q.acl == acl
                && q.flags == mode_flags(mode),
    {
        let req = CreateRequest { path: path.to_string(), data, acl, flags: mode.flags() };
        self.push(Op::Create(req))
    }

    /// Appends the creation of a node whose reply also carries the node's metadata.
    pub fn create2(self, path: &str, data: Vec<u8>, acl: Vec<Acl>, mode: CreateMode) -> (r: Self)
        requires
            self.wf(),
        ensures
            r.wf(),
            appended(self@, r@),
            r@.last() matches Op::Create2(q) && q.path@ == path@ && q.data == data && q.acl == acl
                && q.flags == mode_flags(mode),
    {
        let req = CreateRequest { path: path.to_string(), data, acl, flags: mode.flags() };
        self.push(Op::Create2(req))
    }

    /// Appends the creation of a node that lives `ttl` milliseconds.
    pub fn create_ttl(
        self,
        path: &str,
        data: Vec<u8>,
        acl: Vec<Acl>,
        mode: CreateMode,
        ttl: i64,
    ) -> (r: Self)
        requires
            self.wf(),
        ensures
            r.wf(),
            appended(self@, r@),
            r@.last() matches Op::CreateTtl(q) && q.path@ == path@ && q.data == data && q.acl
                == acl && q.flags == mode_flags(mode) && q.ttl == ttl,
    {
        let req = CreateTTLRequest {
            path: path.to_string(),
            data,
            acl,
            flags: mode.flags(),
            ttl,
        };
        self.push(Op::CreateTtl(req))
    }

    /// Appends setting a node's data, at `version` if one is given.
    pub fn set_data(self, path: &str, data: Vec<u8>, version: Option<i32>) -> (r: Self)
        requires
            self.wf(),
        ensures
            r.wf(),
            appended(self@, r@),
            r@.last() matches Op::SetData(q) && q.path@ == path@ && q.data == data && q.version
                == version_or_any(version),
    {
        let req = SetDataRequest {
            path: path.to_string(),
            data,
            version: version_or_any_exec(version),
        };
        self.push(Op::SetData(req))
    }

    /// Appends the deletion of a node, at `version` if one is given.
    pub fn delete(self, path: &str, version: Option<i32>) -> (r: Self)
        requires
            self.wf(),
        ensures
            r.wf(),
            appended(self@, r@),
            r@.last() matches Op::Delete(q) && q.path@ == path@ && q.version == version_or_any(
                version,
            ),
    {
        let req = DeleteRequest { path: path.to_string(), version: version_or_any_exec(version) };
        self.push(Op::Delete(req))
    }

    /// Appends a check that the node exists and, if a version is given, has it.
    pub fn check(self, path: &str, version: Option<i32>) -> (r: Self)
        requires
            self.wf(),
        ensures
            r.wf(),
            appended(self@, r@),
            r@.last() matches Op::Check(q) && q.path@ == path@ && q.version == version_or_any(
                version,
            ),
    {
        let req = CheckRequest { path: path.to_string(), version: version_or_any_exec(version) };
        self.push(Op::Check(req))
    }

    /// The sub-operations to send in one multi request, in submission order.
    pub fn into_ops(self) -> (r: Vec<Op>)
        requires
            self.wf(),
        ensures
            r@ == self@,
            forall|i: int| 0 <= i < r@.len() ==> !is_read_op(#[trigger] r@[i]),
    {
        proof {
            assert forall|i: int| 0 <= i < self.operations@.len() implies !is_read_op(
                #[trigger] self.operations@[i],
            ) by {
                assert(self@[i] == self.operations@[i]);
            }
        }
        self.operations
    }
}

impl Read {
    /// Every sub-operation is a read.
    pub open spec fn wf(&self) -> bool {
        forall|i: int| 0 <= i < self@.len() ==> is_read_op(#[trigger] self@[i])
    }

    fn push(self, op: Op) -> (r: Self)
        requires
            self.wf(),
            is_read_op(op),
        ensures
            r.wf(),
            appended(self@, r@),
            r@.last() == op,
    {
        let ghost before = self@;
        let mut operations = self.operations;
        push_op(&mut operations, op);
        proof {
            assert forall|i: int| 0 <= i < operations@.len() implies is_read_op(
                #[trigger] operations@[i],
            ) by {
                if i < before.len() {
                    assert(operations@[i] == before[i]);
                }
            }
        }
        Read { operations }
    }

    /// An empty multi-read.
    pub fn new() -> (r: Self)
        ensures
            r@ == Seq::<Op>::empty(),
            r.wf(),
    {
        Read { operations: Vec::new() }
    }

    /// Appends reading a node's data, leaving a data watch if `watch`.
    pub fn get_data(self, path: &str, watch: bool) -> (r: Self)
        requires
            self.wf(),
        ensures
            r.wf(),
            appended(self@, r@),
            r@.last() matches Op::GetData(q) && q.path@ == path@ && q.watch == watch,
    {
        let req = GetDataRequest { path: path.to_string(), watch };
        self.push(Op::GetData(req))
    }

    /// Appends listing a node's children, leaving a child watch if `watch`.
    pub fn get_children(self, path: &str, watch: bool) -> (r: Self)
        requires
            self.wf(),
        ensures
            r.wf(),
            appended(self@, r@),
            r@.last() matches Op::GetChildren(q) && q.path@ == path@ && q.watch == watch,
    {
        let req = GetDataRequest { path: path.to_string(), watch };
        self.push(Op::GetChildren(req))
    }

    /// The sub-operations to send in one multi-read request, in submission order.
    pub fn into_ops(self) -> (r: Vec<Op>)
        requires
            self.wf(),
        ensures
            r@ == self@,
            forall|i: int| 0 <= i < r@.len() ==> is_read_op(#[trigger] r@[i]),
    {
        proof {
            assert forall|i: int| 0 <= i < self.operations@.len() implies is_read_op(
                #[trigger] self.operations@[i],
            ) by {
                assert(self@[i] == self.operations@[i]);
            }
        }
        self.operations
    }
}

} // verus!

verus! {

/// One decoded entry of a write multi reply.
#[derive(Debug)]
pub enum MultiReply {
    Create(String),
    Create2(String, Stat),
    CreateTtl(String, Stat),
    SetData(Stat),
    Delete,
    Check,
    /// An operation that would have succeeded, undone with the transaction.
    RolledBack,
    Error(ZkError),
}

/// One decoded entry of a multi-read reply.
#[derive(Debug)]
pub enum ReadReply {
    GetData(Vec<u8>, Stat),
    GetChildren(Vec<String>),
    Error(ZkError),
}

/// A reply entry answers a sub-operation: it is an error, or of the operation's kind.
pub open spec fn reply_fits(op: Op, reply: MultiReply) -> bool {
    match reply {
        MultiReply::Create(_) => op is Create,
        MultiReply::Create2(_, _) => op is Create2,
        MultiReply::CreateTtl(_, _) => op is CreateTtl,
        MultiReply::SetData(_) => op is SetData,
        MultiReply::Delete => op is Delete,
        MultiReply::Check => op is Check,
        MultiReply::RolledBack | MultiReply::Error(_) => true,
    }
}

/// An entry that tells of a transaction that was not applied.
pub open spec fn is_failure(reply: MultiReply) -> bool {
    reply is RolledBack || reply is Error
}

/// The reply has one fitting entry per sub-operation.
pub open spec fn replies_fit(ops: Seq<Op>, replies: Seq<MultiReply>) -> bool {
    &&& ops.len() == replies.len()
    &&& forall|i: int| 0 <= i < ops.len() ==> reply_fits(#[trigger] ops[i], replies[i])
}

/// An error entry that reports a cause rather than a consequence of another failure.
pub open spec fn is_cause(reply: MultiReply) -> bool {
    reply matches MultiReply::Error(e) && e != ZkError::RuntimeInconsistency
}

/// Entry `i` is the first that reports a cause.
pub open spec fn first_cause_at(replies: Seq<MultiReply>, i: int) -> bool {
    &&& 0 <= i < replies.len()
    &&& is_cause(replies[i])
    &&& forall|j: int| 0 <= j < i ==> !is_cause(#[trigger] replies[j])
}

/// The result that a successful entry stands for.
pub open spec fn result_of(reply: MultiReply) -> OperationResult {
    match reply {
        MultiReply::Create(p) => OperationResult::Create(p),
        MultiReply::Create2(p, s) => OperationResult::Create2(p, s),
        MultiReply::CreateTtl(p, s) => OperationResult::CreateTtl(p, s),
        MultiReply::SetData(s) => OperationResult::SetData(s),
        MultiReply::Delete => OperationResult::Delete,
        MultiReply::Check => OperationResult::Check,
        MultiReply::RolledBack | MultiReply::Error(_) => arbitrary(),
    }
}

fn fits(op: &Op, reply: &MultiReply) -> (r: bool)
    ensures
        r == reply_fits(*op, *reply),
{
    match reply {
        MultiReply::Create(_) => matches!(op, Op::Create(_)),
        MultiReply::Create2(_, _) => matches!(op, Op::Create2(_)),
        MultiReply::CreateTtl(_, _) => matches!(op, Op::CreateTtl(_)),
        MultiReply::SetData(_) => matches!(op, Op::SetData(_)),
        MultiReply::Delete => matches!(op, Op::Delete(_)),
        MultiReply::Check => matches!(op, Op::Check(_)),
        MultiReply::RolledBack | MultiReply::Error(_) => true,
    }
}

fn to_result(reply: MultiReply) -> (r: OperationResult)
    requires
        !is_failure(reply),
    ensures
        r == result_of(reply),
{
    match reply {
        MultiReply::Create(p) => OperationResult::Create(p),
        MultiReply::Create2(p, s) => OperationResult::Create2(p, s),
        MultiReply::CreateTtl(p, s) => OperationResult::CreateTtl(p, s),
        MultiReply::SetData(s) => OperationResult::SetData(s),
        MultiReply::Delete => OperationResult::Delete,
        MultiReply::Check | MultiReply::RolledBack | MultiReply::Error(_) => OperationResult::Check,
    }
}

/// The outcome of a committed transaction, from its sub-operations and the
/// server's reply entries: a reply that does not answer the operations is a
/// marshalling error; otherwise the first entry that reports a cause is the
/// whole transaction's error; an error with no cause reported is a runtime
/// inconsistency; and with no error, one result per operation, in order.
pub fn multi_result(ops: &Vec<Op>, replies: Vec<MultiReply>) -> (r: ZkResult<Vec<OperationResult>>)
    ensures
        !replies_fit(ops@, replies@) ==> r == Err::<Vec<OperationResult>, ZkError>(
            ZkError::MarshallingError,
        ),
        replies_fit(ops@, replies@) ==> forall|i: int|
            first_cause_at(replies@, i) ==> r == Err::<Vec<OperationResult>, ZkError>(
                replies@[i]->Error_0,
            ),
        replies_fit(ops@, replies@) && (forall|i: int|
            0 <= i < replies@.len() ==> !is_cause(#[trigger] replies@[i])) && (exists|i: int|
            0 <= i < replies@.len() && is_failure(#[trigger] replies@[i])) ==> r == Err::<
            Vec<OperationResult>,
            ZkError,
        >(ZkError::RuntimeInconsistency),
        r is Ok <==> replies_fit(ops@, replies@) && forall|i: int|
            0 <= i < replies@.len() ==> !is_failure(#[trigger] replies@[i]),
        r matches Ok(v) ==> v@ == replies@.map_values(|x: MultiReply| result_of(x)),
{
    let n = ops.len();
    if replies.len() != n {
        return Err(ZkError::MarshallingError);
    }
    let mut i: usize = 0;
    while i < n
        invariant
            n == ops@.len(),
            n == replies@.len(),
            i <= n,
            forall|j: int| 0 <= j < i ==> reply_fits(#[trigger] ops@[j], replies@[j]),
        decreases n - i,
    {
        if !fits(&ops[i], &replies[i]) {
            return Err(ZkError::MarshallingError);
        }
        i = i + 1;
    }
    let mut any_error = false;
    let mut i: usize = 0;
    while i < n
        invariant
            replies_fit(ops@, replies@),
            n == replies@.len(),
            i <= n,
            forall|j: int| 0 <= j < i ==> !is_cause(#[trigger] replies@[j]),
            any_error <==> exists|j: int| 0 <= j < i && is_failure(#[trigger] replies@[j]),
        decreases n - i,
    {
        if let MultiReply::Error(e) = &replies[i] {
            if *e != ZkError::RuntimeInconsistency {
                proof {
                    assert(first_cause_at(replies@, i as int));
                    assert forall|k: int| first_cause_at(replies@, k) implies k == i by {
                        if k < i {
                            assert(!is_cause(replies@[k]));
                        }
                        if k > i {
                            assert(is_cause(replies@[i as int]));
                        }
                    }
                }
                return Err(*e);
            }
            any_error = true;
        } else if let MultiReply::RolledBack = &replies[i] {
            any_error = true;
        }
        i = i + 1;
    }
    if any_error {
        return Err(ZkError::RuntimeInconsistency);
    }
    let ghost all = replies@;
    let mut rest = replies;
    let mut out: Vec<OperationResult> = Vec::new();
    while rest.len() > 0
        invariant
            out@.len() + rest@.len() == all.len(),
            rest@ == all.subrange(out@.len() as int, all.len() as int),
            out@ == all.subrange(0, out@.len() as int).map_values(|x: MultiReply| result_of(x)),
            forall|j: int| 0 <= j < all.len() ==> !is_failure(#[trigger] all[j]),
        decreases rest@.len(),
    {
        let ghost k = out@.len();
        let x = rest.remove(0);
        out.push(to_result(x));
        proof {
            assert(rest@ =~= all.subrange(out@.len() as int, all.len() as int));
            assert(out@ =~= all.subrange(0, out@.len() as int).map_values(
                |x: MultiReply| result_of(x),
            ));
        }
    }
    proof {
        assert(all.subrange(0, all.len() as int) =~= all);
    }
    Ok(out)
}

} // verus!

verus! {

/// A read reply entry answers a read sub-operation: it is an error, or of its kind.
pub open spec fn read_reply_fits(op: Op, reply: ReadReply) -> bool {
    match reply {
        ReadReply::GetData(_, _) => op is GetData,
        ReadReply::GetChildren(_) => op is GetChildren,
        ReadReply::Error(_) => true,
    }
}

/// The multi-read reply has one fitting entry per sub-operation.
pub open spec fn read_replies_fit(ops: Seq<Op>, replies: Seq<ReadReply>) -> bool {
    &&& ops.len() == replies.len()
    &&& forall|i: int| 0 <= i < ops.len() ==> read_reply_fits(#[trigger] ops[i], replies[i])
}

/// Entry `i` is the first error of a multi-read reply.
pub open spec fn first_read_error_at(replies: Seq<ReadReply>, i: int) -> bool {
    &&& 0 <= i < replies.len()
    &&& replies[i] is Error
    &&& forall|j: int| 0 <= j < i ==> !(#[trigger] replies[j] is Error)
}

/// The result that a successful read entry stands for.
pub open spec fn read_result_of(reply: ReadReply) -> ReadOperationResult {
    match reply {
        ReadReply::GetData(d, s) => ReadOperationResult::GetData(d, s),
        ReadReply::GetChildren(c) => ReadOperationResult::GetChildren(c),
        ReadReply::Error(_) => arbitrary(),
    }
}

fn read_fits(op: &Op, reply: &ReadReply) -> (r: bool)
    ensures
        r == read_reply_fits(*op, *reply),
{
    match reply {
        ReadReply::GetData(_, _) => matches!(op, Op::GetData(_)),
        ReadReply::GetChildren(_) => matches!(op, Op::GetChildren(_)),
        ReadReply::Error(_) => true,
    }
}

fn to_read_result(reply: ReadReply) -> (r: ReadOperationResult)
    requires
        !(reply is Error),
    ensures
        r == read_result_of(reply),
{
    match reply {
        ReadReply::GetData(d, s) => ReadOperationResult::GetData(d, s),
        ReadReply::GetChildren(c) => ReadOperationResult::GetChildren(c),
        ReadReply::Error(_) => ReadOperationResult::GetChildren(Vec::new()),
    }
}

/// The outcome of a multi-read, from its sub-operations and the server's reply
/// entries: a reply that does not answer the operations is a marshalling error;
/// otherwise the first error entry is the whole read's error; and with no error,
/// one result per operation, in order.
pub fn multi_read_result(ops: &Vec<Op>, replies: Vec<ReadReply>) -> (r: ZkResult<
    Vec<ReadOperationResult>,
>)
    ensures
        !read_replies_fit(ops@, replies@) ==> r == Err::<Vec<ReadOperationResult>, ZkError>(
            ZkError::MarshallingError,
        ),
        read_replies_fit(ops@, replies@) ==> forall|i: int|
            first_read_error_at(replies@, i) ==> r == Err::<Vec<ReadOperationResult>, ZkError>(
                replies@[i]->Error_0,
            ),
        r is Ok <==> read_replies_fit(ops@, replies@) && forall|i: int|
            0 <= i < replies@.len() ==> !(#[trigger] replies@[i] is Error),
        r matches Ok(v) ==> v@ == replies@.map_values(|x: ReadReply| read_result_of(x)),
{
    let n = ops.len();
    if replies.len() != n {
        return Err(ZkError::MarshallingError);
    }
    let mut i: usize = 0;
    while i < n
        invariant
            n == ops@.len(),
            n == replies@.len(),
            i <= n,
            forall|j: int| 0 <= j < i ==> read_reply_fits(#[trigger] ops@[j], replies@[j]),
        decreases n - i,
    {
        if !read_fits(&ops[i], &replies[i]) {
            return Err(ZkError::MarshallingError);
        }
        i = i + 1;
    }
    let mut i: usize = 0;
    while i < n
        invariant
            read_replies_fit(ops@, replies@),
            n == replies@.len(),
            i <= n,
            forall|j: int| 0 <= j < i ==> !(#[trigger] replies@[j] is Error),
        decreases n - i,
    {
        if let ReadReply::Error(e) = &replies[i] {
            proof {
                assert(first_read_error_at(replies@, i as int));
                assert forall|k: int| first_read_error_at(replies@, k) implies k == i by {
                    if k > i {
                        assert(replies@[i as int] is Error);
                    }
                }
            }
            return Err(*e);
        }
        i = i + 1;
    }
    let ghost all = replies@;
    let mut rest = replies;
    let mut out: Vec<ReadOperationResult> = Vec::new();
    while rest.len() > 0
        invariant
            out@.len() + rest@.len() == all.len(),
            rest@ == all.subrange(out@.len() as int, all.len() as int),
            out@ == all.subrange(0, out@.len() as int).map_values(
                |x: ReadReply| read_result_of(x),
            ),
            forall|j: int| 0 <= j < all.len() ==> !(#[trigger] all[j] is Error),
        decreases rest@.len(),
    {
        let x = rest.remove(0);
        out.push(to_read_result(x));
        proof {
            assert(rest@ =~= all.subrange(out@.len() as int, all.len() as int));
            assert(out@ =~= all.subrange(0, out@.len() as int).map_values(
                |x: ReadReply| read_result_of(x),
            ));
        }
    }
    proof {
        assert(all.subrange(0, all.len() as int) =~= all);
    }
    Ok(out)
}

} // verus!
