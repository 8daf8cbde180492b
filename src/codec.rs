use vstd::prelude::*;
use crate::consts::ZkError;
use crate::data::Acl;
use crate::proto::{opcode_of, Op, OP_MULTI, OP_MULTI_READ};
use vstd::utf8::encode_utf8;

verus! {

/// Default cap on the declared length of an inbound frame: 4 MiB.
pub const DEFAULT_MAX_FRAME: u32 = 4194304;

/// The unsigned value of four bytes, most significant first.
pub open spec fn be_u32(b0: u8, b1: u8, b2: u8, b3: u8) -> u32 {
    ((b0 as u32) << 24u32) | ((b1 as u32) << 16u32) | ((b2 as u32) << 8u32) | (b3 as u32)
}

/// Byte `k` (0 = most significant) of the big-endian form of `v`.
pub open spec fn be_byte32(v: u32, k: u32) -> u8 {
    ((v >> (24u32 - 8u32 * k)) & 0xffu32) as u8
}

/// The four bytes of `v`, most significant first.
pub open spec fn be_bytes32(v: u32) -> Seq<u8> {
    seq![be_byte32(v, 0), be_byte32(v, 1), be_byte32(v, 2), be_byte32(v, 3)]
}

/// The eight bytes of `v`, most significant first.
pub open spec fn be_bytes64(v: u64) -> Seq<u8> {
    be_bytes32((v >> 32u64) as u32) + be_bytes32(v as u32)
}

/// Reading back the four bytes of a value gives the value.
pub proof fn lemma_be32_round_trip(v: u32)
    ensures
        be_u32(be_byte32(v, 0), be_byte32(v, 1), be_byte32(v, 2), be_byte32(v, 3)) == v,
{
    assert(((((v >> 24u32) & 0xffu32) as u8 as u32) << 24u32) | ((((v >> 16u32) & 0xffu32) as u8 as u32)
        << 16u32) | ((((v >> 8u32) & 0xffu32) as u8 as u32) << 8u32) | (((v >> 0u32) & 0xffu32) as u8
        as u32) == v) by (bit_vector);
}

/// Reading back the eight bytes of a value gives the value.
pub proof fn lemma_be64_round_trip(v: u64)
    ensures
        (((be_u32(be_bytes64(v)[0], be_bytes64(v)[1], be_bytes64(v)[2], be_bytes64(v)[3]) as u64) << 32u64)
            | (be_u32(be_bytes64(v)[4], be_bytes64(v)[5], be_bytes64(v)[6], be_bytes64(v)[7]) as u64))
            == v,
{
    lemma_be32_round_trip((v >> 32u64) as u32);
    lemma_be32_round_trip(v as u32);
    assert(((((v >> 32u64) as u32) as u64) << 32u64) | ((v as u32) as u64) == v) by (bit_vector);
}

/// Appends the big-endian form of an `i32`.
pub fn write_i32(out: &mut Vec<u8>, v: i32)
    ensures
        final(out)@ == old(out)@ + be_bytes32(v as u32),
{
    write_u32(out, v as u32);
}

fn write_u32(out: &mut Vec<u8>, u: u32)
    ensures
        final(out)@ == old(out)@ + be_bytes32(u),
{
    out.push(((u >> 24u32) & 0xffu32) as u8);
    out.push(((u >> 16u32) & 0xffu32) as u8);
    out.push(((u >> 8u32) & 0xffu32) as u8);
    out.push((u & 0xffu32) as u8);
    proof {
        assert(u >> 0u32 == u) by (bit_vector);
        assert(final(out)@ =~= old(out)@ + be_bytes32(u));
    }
}

/// Appends the big-endian form of an `i64`.
pub fn write_i64(out: &mut Vec<u8>, v: i64)
    ensures
        final(out)@ == old(out)@ + be_bytes64(v as u64),
{
    let u = v as u64;
    write_u32(out, (u >> 32u64) as u32);
    write_u32(out, u as u32);
    proof {
        assert(final(out)@ =~= old(out)@ + be_bytes64(v as u64));
    }
}

/// Appends a boolean as one byte.
pub fn write_bool(out: &mut Vec<u8>, b: bool)
    ensures
        final(out)@ == old(out)@.push(if b { 1u8 } else { 0u8 }),
{
    out.push(if b { 1u8 } else { 0u8 });
}

fn read_u32(buf: &[u8], pos: usize) -> (r: u32)
    requires
        pos + 4 <= buf@.len(),
    ensures
        r == be_u32(buf@[pos as int], buf@[pos + 1], buf@[pos + 2], buf@[pos + 3]),
{
    ((buf[pos] as u32) << 24u32) | ((buf[pos + 1] as u32) << 16u32) | ((buf[pos + 2] as u32) << 8u32)
        | (buf[pos + 3] as u32)
}

/// Reads a big-endian `i32` at `pos`, giving the value and the position after
/// it, or `None` when fewer than four bytes remain.
pub fn read_i32(buf: &[u8], pos: usize) -> (r: Option<(i32, usize)>)
    ensures
        r == read_i32_spec(buf@, pos as int),
{
    if pos > buf.len() || buf.len() - pos < 4 {
        return None;
    }
    Some((read_u32(buf, pos) as i32, pos + 4))
}

/// Reads a big-endian `i64` at `pos`, giving the value and the position after
/// it, or `None` when fewer than eight bytes remain.
pub fn read_i64(buf: &[u8], pos: usize) -> (r: Option<(i64, usize)>)
    ensures
        r == read_i64_spec(buf@, pos as int),
{
    if pos > buf.len() || buf.len() - pos < 8 {
        return None;
    }
    let hi = read_u32(buf, pos) as u64;
    let lo = read_u32(buf, pos + 4) as u64;
    Some((((hi << 32u64) | lo) as i64, pos + 8))
}

/// Reads a boolean byte at `pos` (any non-zero byte is `true`).
pub fn read_bool(buf: &[u8], pos: usize) -> (r: Option<(bool, usize)>)
    ensures
        pos as int + 1 > buf@.len() ==> r is None,
        pos as int + 1 <= buf@.len() ==> r == Some((buf@[pos as int] != 0, (pos + 1) as usize)),
{
    if pos >= buf.len() {
        return None;
    }
    Some((buf[pos] != 0, pos + 1))
}

/// What the length prefix at the start of `buf` says about the next frame.
#[derive(Debug, Clone, Copy, PartialEq, Eq, Structural)]
pub enum FrameStatus {
    /// More bytes are needed before the frame is whole.
    Incomplete,
    /// A whole frame of `len` bytes follows the four-byte prefix.
    Ready { len: usize },
}

/// Examines the length prefix at the start of `buf`. A declared length above
/// `cap` is a `MarshallingError`; otherwise the frame is ready once its whole
/// body is in `buf`.
pub fn frame_status(buf: &[u8], cap: u32) -> (r: Result<FrameStatus, ZkError>)
    ensures
        buf@.len() < 4 ==> r == Ok::<FrameStatus, ZkError>(FrameStatus::Incomplete),
        buf@.len() >= 4 ==> ({
            let n = be_u32(buf@[0], buf@[1], buf@[2], buf@[3]);
            &&& n > cap ==> r == Err::<FrameStatus, ZkError>(ZkError::MarshallingError)
            &&& n <= cap && 4 + n > buf@.len() ==> r == Ok::<FrameStatus, ZkError>(
                FrameStatus::Incomplete,
            )
            &&& n <= cap && 4 + n <= buf@.len() ==> r == Ok::<FrameStatus, ZkError>(
                FrameStatus::Ready { len: n as usize },
            )
        }),
{
    if buf.len() < 4 {
        return Ok(FrameStatus::Incomplete);
    }
    let n = read_u32(buf, 0);
    if n > cap {
        return Err(ZkError::MarshallingError);
    }
    if buf.len() - 4 < n as usize {
        Ok(FrameStatus::Incomplete)
    } else {
        Ok(FrameStatus::Ready { len: n as usize })
    }
}

/// Header of a reply frame.
#[derive(Debug, Clone, Copy, PartialEq, Eq, Structural)]
pub struct ReplyHeader {
    pub xid: i32,
    pub zxid: i64,
    pub err: i32,
}

/// Reads a reply header at `pos`: `xid`, `zxid`, `err`, giving the position
/// after it, or `None` when the bytes run out.
pub fn read_reply_header(buf: &[u8], pos: usize) -> (r: Option<(ReplyHeader, usize)>)
    ensures
        r == reply_header_spec(buf@, pos as int),
{
    let n = buf.len();
    if pos > n || n - pos < 16 {
        return None;
    }
    let (xid, at_zxid) = match read_i32(buf, pos) {
        Some(x) => x,
        None => return None,
    };
    let (zxid, at_err) = match read_i64(buf, at_zxid) {
        Some(x) => x,
        None => return None,
    };
    let (err, end) = match read_i32(buf, at_err) {
        Some(x) => x,
        None => return None,
    };
    Some((ReplyHeader { xid, zxid, err }, end))
}

/// The reply header at `pos` of `b` and the position after it.
pub open spec fn reply_header_spec(b: Seq<u8>, pos: int) -> Option<(ReplyHeader, usize)> {
    if 0 <= pos && pos + 16 <= b.len() {
        Some(
            (
                ReplyHeader {
                    xid: be_i32_at(b, pos),
                    zxid: be_i64_at(b, pos + 4),
                    err: be_i32_at(b, pos + 12),
                },
                (pos + 16) as usize,
            ),
        )
    } else {
        None
    }
}

/// The big-endian `i32` in the four bytes at `pos` of `b`.
pub open spec fn be_i32_at(b: Seq<u8>, pos: int) -> i32 {
    be_u32(b[pos], b[pos + 1], b[pos + 2], b[pos + 3]) as i32
}

/// The big-endian `i64` in the eight bytes at `pos` of `b`.
pub open spec fn be_i64_at(b: Seq<u8>, pos: int) -> i64 {
    (((be_u32(b[pos], b[pos + 1], b[pos + 2], b[pos + 3]) as u64) << 32u64) | (be_u32(
        b[pos + 4],
        b[pos + 5],
        b[pos + 6],
        b[pos + 7],
    ) as u64)) as i64
}

/// The `i32` at `pos` of `b` and the position after it.
pub open spec fn read_i32_spec(b: Seq<u8>, pos: int) -> Option<(i32, usize)> {
    if 0 <= pos && pos + 4 <= b.len() {
        Some((be_i32_at(b, pos), (pos + 4) as usize))
    } else {
        None
    }
}

/// The `i64` at `pos` of `b` and the position after it.
pub open spec fn read_i64_spec(b: Seq<u8>, pos: int) -> Option<(i64, usize)> {
    if 0 <= pos && pos + 8 <= b.len() {
        Some((be_i64_at(b, pos), (pos + 8) as usize))
    } else {
        None
    }
}

/// Appends a request header: the request's identifier, then its opcode.
pub fn write_request_header(out: &mut Vec<u8>, xid: i32, opcode: i32)
    ensures
        final(out)@ == old(out)@ + be_bytes32(xid as u32) + be_bytes32(opcode as u32),
{
    write_i32(out, xid);
    write_i32(out, opcode);
    proof {
        assert(final(out)@ =~= old(out)@ + be_bytes32(xid as u32) + be_bytes32(opcode as u32));
    }
}

/// Prefixes `body` with its length, making a frame.
pub fn frame(body: &Vec<u8>) -> (r: Vec<u8>)
    requires
        body@.len() <= u32::MAX,
    ensures
        r@ == be_bytes32(body@.len() as u32) + body@,
{
    let mut out: Vec<u8> = Vec::new();
    write_u32(&mut out, body.len() as u32);
    let mut i: usize = 0;
    while i < body.len()
        invariant
            i <= body@.len(),
            out@ == be_bytes32(body@.len() as u32) + body@.subrange(0, i as int),
        decreases body@.len() - i,
    {
        out.push(body[i]);
        i = i + 1;
        proof {
            assert(out@ =~= be_bytes32(body@.len() as u32) + body@.subrange(0, i as int));
        }
    }
    proof {
        assert(body@.subrange(0, body@.len() as int) =~= body@);
    }
    out
}

/// An `i32` written among other bytes reads back as itself.
pub proof fn lemma_i32_round_trip(before: Seq<u8>, v: i32, after: Seq<u8>)
    requires
        before.len() + 4 <= usize::MAX,
    ensures
        read_i32_spec(before + be_bytes32(v as u32) + after, before.len() as int) == Some(
            (v, (before.len() + 4) as usize),
        ),
{
    let b = before + be_bytes32(v as u32) + after;
    let p = before.len() as int;
    lemma_be32_round_trip(v as u32);
    assert(b[p] == be_byte32(v as u32, 0));
    assert(b[p + 1] == be_byte32(v as u32, 1));
    assert(b[p + 2] == be_byte32(v as u32, 2));
    assert(b[p + 3] == be_byte32(v as u32, 3));
    assert(((v as u32) as i32) == v) by (bit_vector);
}

/// An `i64` written among other bytes reads back as itself.
pub proof fn lemma_i64_round_trip(before: Seq<u8>, v: i64, after: Seq<u8>)
    requires
        before.len() + 8 <= usize::MAX,
    ensures
        read_i64_spec(before + be_bytes64(v as u64) + after, before.len() as int) == Some(
            (v, (before.len() + 8) as usize),
        ),
{
    let u = v as u64;
    let b = before + be_bytes64(u) + after;
    let p = before.len() as int;
    lemma_be64_round_trip(u);
    assert forall|k: int| 0 <= k < 8 implies b[p + k] == be_bytes64(u)[k] by {}
    assert(((v as u64) as i64) == v) by (bit_vector);
}

/// A length that the wire's `i32` length prefix can carry.
pub open spec fn fits_i32(n: nat) -> bool {
    n <= i32::MAX
}

/// A byte buffer: its length, then its bytes.
pub open spec fn buffer_bytes(d: Seq<u8>) -> Seq<u8> {
    be_bytes32(d.len() as u32) + d
}

/// A string: its UTF-8 bytes as a buffer.
pub open spec fn ustring_bytes(s: Seq<char>) -> Seq<u8> {
    buffer_bytes(encode_utf8(s))
}

/// One access-control entry: permission bits, scheme, identity.
pub open spec fn acl_bytes(a: Acl) -> Seq<u8> {
    be_bytes32(a.perms) + ustring_bytes(a.scheme@) + ustring_bytes(a.id@)
}

/// The entries of a list of access-control entries, one after another.
pub open spec fn acls_bytes(s: Seq<Acl>) -> Seq<u8>
    decreases s.len(),
{
    if s.len() == 0 {
        Seq::empty()
    } else {
        acls_bytes(s.drop_last()) + acl_bytes(s.last())
    }
}

/// A vector of access-control entries: their count, then the entries.
pub open spec fn acl_vector_bytes(s: Seq<Acl>) -> Seq<u8> {
    be_bytes32(s.len() as u32) + acls_bytes(s)
}

/// Every length in the entries fits the wire's length prefix.
pub open spec fn acls_encodable(s: Seq<Acl>) -> bool {
    &&& fits_i32(s.len())
    &&& forall|i: int| 0 <= i < s.len() ==> fits_i32(encode_utf8((#[trigger] s[i]).scheme@).len())
        && fits_i32(encode_utf8(s[i].id@).len())
}

/// The body of a sub-operation as the server reads it.
pub open spec fn op_body_bytes(op: Op) -> Seq<u8> {
    match op {
        Op::Create(q) | Op::Create2(q) => ustring_bytes(q.path@) + buffer_bytes(q.data@)
            + acl_vector_bytes(q.acl@) + be_bytes32(q.flags as u32),
        Op::CreateTtl(q) => ustring_bytes(q.path@) + buffer_bytes(q.data@) + acl_vector_bytes(q.acl@)
            + be_bytes32(q.flags as u32) + be_bytes64(q.ttl as u64),
        Op::SetData(q) => ustring_bytes(q.path@) + buffer_bytes(q.data@) + be_bytes32(q.version as u32),
        Op::Delete(q) => ustring_bytes(q.path@) + be_bytes32(q.version as u32),
        Op::Check(q) => ustring_bytes(q.path@) + be_bytes32(q.version as u32),
        Op::GetData(q) | Op::GetChildren(q) => ustring_bytes(q.path@) + seq![
            if q.watch { 1u8 } else { 0u8 },
        ],
    }
}

/// Every length in a sub-operation fits the wire's length prefix.
pub open spec fn op_encodable(op: Op) -> bool {
    match op {
        Op::Create(q) | Op::Create2(q) => fits_i32(encode_utf8(q.path@).len()) && fits_i32(q.data@.len())
            && acls_encodable(q.acl@),
        Op::CreateTtl(q) => fits_i32(encode_utf8(q.path@).len()) && fits_i32(q.data@.len())
            && acls_encodable(q.acl@),
        Op::SetData(q) => fits_i32(encode_utf8(q.path@).len()) && fits_i32(q.data@.len()),
        Op::Delete(q) => fits_i32(encode_utf8(q.path@).len()),
        Op::Check(q) => fits_i32(encode_utf8(q.path@).len()),
        Op::GetData(q) | Op::GetChildren(q) => fits_i32(encode_utf8(q.path@).len()),
    }
}

/// The header in front of each sub-operation of a multi envelope.
pub open spec fn multi_header_bytes(op_type: i32, done: bool, err: i32) -> Seq<u8> {
    be_bytes32(op_type as u32) + seq![if done { 1u8 } else { 0u8 }] + be_bytes32(err as u32)
}

/// The sub-operations of a multi envelope, each behind its header.
pub open spec fn multi_ops_bytes(ops: Seq<Op>) -> Seq<u8>
    decreases ops.len(),
{
    if ops.len() == 0 {
        Seq::empty()
    } else {
        multi_ops_bytes(ops.drop_last()) + multi_header_bytes(opcode_of(ops.last()), false, -1i32)
            + op_body_bytes(ops.last())
    }
}

/// A whole multi envelope: the sub-operations, then the closing header.
pub open spec fn multi_bytes(ops: Seq<Op>) -> Seq<u8> {
    multi_ops_bytes(ops) + multi_header_bytes(-1i32, true, -1i32)
}

fn write_bytes(out: &mut Vec<u8>, d: &[u8])
    ensures
        final(out)@ == old(out)@ + d@,
{
    let mut i: usize = 0;
    while i < d.len()
        invariant
            i <= d@.len(),
            out@ == old(out)@ + d@.subrange(0, i as int),
        decreases d@.len() - i,
    {
        out.push(d[i]);
        i = i + 1;
        proof {
            assert(out@ =~= old(out)@ + d@.subrange(0, i as int));
        }
    }
    proof {
        assert(d@.subrange(0, d@.len() as int) =~= d@);
    }
}

/// Appends a byte buffer.
pub fn write_buffer(out: &mut Vec<u8>, d: &[u8])
    requires
        fits_i32(d@.len()),
    ensures
        final(out)@ == old(out)@ + buffer_bytes(d@),
{
    write_u32(out, d.len() as u32);
    write_bytes(out, d);
    proof {
        assert(final(out)@ =~= old(out)@ + buffer_bytes(d@));
    }
}

/// Appends a string.
pub fn write_ustring(out: &mut Vec<u8>, s: &String)
    requires
        fits_i32(encode_utf8(s@).len()),
    ensures
        final(out)@ == old(out)@ + ustring_bytes(s@),
{
    let b = s.as_str().as_bytes();
    write_buffer(out, b);
}

fn write_acls(out: &mut Vec<u8>, acl: &Vec<Acl>)
    requires
        acls_encodable(acl@),
    ensures
        final(out)@ == old(out)@ + acl_vector_bytes(acl@),
{
    write_u32(out, acl.len() as u32);
    let ghost start = out@;
    let mut i: usize = 0;
    while i < acl.len()
        invariant
            i <= acl@.len(),
            acls_encodable(acl@),
            out@ == start + acls_bytes(acl@.subrange(0, i as int)),
        decreases acl@.len() - i,
    {
        let a = &acl[i];
        write_u32(out, a.perms);
        write_ustring(out, &a.scheme);
        write_ustring(out, &a.id);
        proof {
            let pre = acl@.subrange(0, i as int);
            let cur = acl@.subrange(0, i + 1);
            assert(cur.drop_last() =~= pre);
            assert(cur.last() == acl@[i as int]);
            assert(out@ =~= start + acls_bytes(cur));
        }
        i = i + 1;
    }
    proof {
        assert(acl@.subrange(0, acl@.len() as int) =~= acl@);
        assert(final(out)@ =~= old(out)@ + acl_vector_bytes(acl@));
    }
}

/// Appends the body of a sub-operation.
pub fn write_op_body(out: &mut Vec<u8>, op: &Op)
    requires
        op_encodable(*op),
    ensures
        final(out)@ == old(out)@ + op_body_bytes(*op),
{
    let ghost start = out@;
    match op {
        Op::Create(q) | Op::Create2(q) => {
            write_ustring(out, &q.path);
            write_buffer(out, q.data.as_slice());
            write_acls(out, &q.acl);
            write_i32(out, q.flags);
        },
        Op::CreateTtl(q) => {
            write_ustring(out, &q.path);
            write_buffer(out, q.data.as_slice());
            write_acls(out, &q.acl);
            write_i32(out, q.flags);
            write_i64(out, q.ttl);
        },
        Op::SetData(q) => {
            write_ustring(out, &q.path);
            write_buffer(out, q.data.as_slice());
            write_i32(out, q.version);
        },
        Op::Delete(q) => {
            write_ustring(out, &q.path);
            write_i32(out, q.version);
        },
        Op::Check(q) => {
            write_ustring(out, &q.path);
            write_i32(out, q.version);
        },
        Op::GetData(q) | Op::GetChildren(q) => {
            write_ustring(out, &q.path);
            write_bool(out, q.watch);
        },
    }
    proof {
        assert(out@ =~= start + op_body_bytes(*op));
    }
}

fn write_multi_header(out: &mut Vec<u8>, op_type: i32, done: bool, err: i32)
    ensures
        final(out)@ == old(out)@ + multi_header_bytes(op_type, done, err),
{
    write_i32(out, op_type);
    write_bool(out, done);
    write_i32(out, err);
    proof {
        assert(final(out)@ =~= old(out)@ + multi_header_bytes(op_type, done, err));
    }
}

/// Encodes the body of a multi request: each sub-operation behind a header
/// that carries its opcode, then a closing header.
pub fn encode_multi(ops: &Vec<Op>) -> (r: Vec<u8>)
    requires
        forall|i: int| 0 <= i < ops@.len() ==> op_encodable(#[trigger] ops@[i]),
    ensures
        r@ == multi_bytes(ops@),
{
    let mut out: Vec<u8> = Vec::new();
    let mut i: usize = 0;
    while i < ops.len()
        invariant
            i <= ops@.len(),
            forall|k: int| 0 <= k < ops@.len() ==> op_encodable(#[trigger] ops@[k]),
            out@ == multi_ops_bytes(ops@.subrange(0, i as int)),
        decreases ops@.len() - i,
    {
        let op = &ops[i];
        write_multi_header(&mut out, op.opcode(), false, -1);
        write_op_body(&mut out, op);
        proof {
            let cur = ops@.subrange(0, i + 1);
            assert(cur.drop_last() =~= ops@.subrange(0, i as int));
            assert(cur.last() == ops@[i as int]);
        }
        i = i + 1;
    }
    proof {
        assert(ops@.subrange(0, ops@.len() as int) =~= ops@);
    }
    write_multi_header(&mut out, -1, true, -1);
    out
}

/// The strings of a vector, one after another.
pub open spec fn ustrings_bytes(s: Seq<Seq<char>>) -> Seq<u8>
    decreases s.len(),
{
    if s.len() == 0 {
        Seq::empty()
    } else {
        ustrings_bytes(s.drop_last()) + ustring_bytes(s.last())
    }
}

/// A vector of strings: their count, then the strings.
pub open spec fn string_vector_bytes(s: Seq<Seq<char>>) -> Seq<u8> {
    be_bytes32(s.len() as u32) + ustrings_bytes(s)
}

/// Every length in a vector of strings fits the wire's length prefix.
pub open spec fn strings_encodable(s: Seq<Seq<char>>) -> bool {
    &&& fits_i32(s.len())
    &&& forall|i: int| 0 <= i < s.len() ==> fits_i32(encode_utf8(#[trigger] s[i]).len())
}

/// The texts of a list of strings.
pub open spec fn texts(v: Seq<String>) -> Seq<Seq<char>> {
    v.map_values(|s: String| s@)
}

/// Appends a vector of strings.
pub fn write_string_vector(out: &mut Vec<u8>, v: &Vec<String>)
    requires
        strings_encodable(texts(v@)),
    ensures
        final(out)@ == old(out)@ + string_vector_bytes(texts(v@)),
{
    write_u32(out, v.len() as u32);
    let ghost start = out@;
    let ghost t = texts(v@);
    let mut i: usize = 0;
    while i < v.len()
        invariant
            i <= v@.len(),
            t == texts(v@),
            strings_encodable(t),
            out@ == start + ustrings_bytes(t.subrange(0, i as int)),
        decreases v@.len() - i,
    {
        proof {
            assert(t[i as int] == v@[i as int]@);
        }
        write_ustring(out, &v[i]);
        proof {
            let cur = t.subrange(0, i + 1);
            assert(cur.drop_last() =~= t.subrange(0, i as int));
            assert(cur.last() == t[i as int]);
            assert(out@ =~= start + ustrings_bytes(cur));
        }
        i = i + 1;
    }
    proof {
        assert(t.subrange(0, t.len() as int) =~= t);
        assert(final(out)@ =~= old(out)@ + string_vector_bytes(t));
    }
}

/// Encodes the body of a set-watches packet: the last transaction id seen,
/// then the paths of the pending exists, data and child watches.
pub fn encode_set_watches(
    last_zxid: i64,
    exists: &Vec<String>,
    data: &Vec<String>,
    children: &Vec<String>,
) -> (r: Vec<u8>)
    requires
        strings_encodable(texts(exists@)),
        strings_encodable(texts(data@)),
        strings_encodable(texts(children@)),
    ensures
        r@ == be_bytes64(last_zxid as u64) + string_vector_bytes(texts(exists@))
            + string_vector_bytes(texts(data@)) + string_vector_bytes(texts(children@)),
{
    let mut out: Vec<u8> = Vec::new();
    write_i64(&mut out, last_zxid);
    write_string_vector(&mut out, exists);
    write_string_vector(&mut out, data);
    write_string_vector(&mut out, children);
    proof {
        assert(out@ =~= be_bytes64(last_zxid as u64) + string_vector_bytes(texts(exists@))
            + string_vector_bytes(texts(data@)) + string_vector_bytes(texts(children@)));
    }
    out
}

/// Builds the whole frame of a multi request (`OP_MULTI`) or of a multi-read
/// (`OP_MULTI_READ`): length prefix, request header, then the envelope.
pub fn multi_request_frame(xid: i32, read: bool, ops: &Vec<Op>) -> (r: Vec<u8>)
    requires
        forall|i: int| 0 <= i < ops@.len() ==> op_encodable(#[trigger] ops@[i]),
        multi_bytes(ops@).len() + 8 <= u32::MAX,
    ensures
        r@ == be_bytes32((multi_bytes(ops@).len() + 8) as u32) + be_bytes32(xid as u32) + be_bytes32(
            (if read { OP_MULTI_READ } else { OP_MULTI }) as u32,
        ) + multi_bytes(ops@),
{
    let mut body: Vec<u8> = Vec::new();
    write_request_header(&mut body, xid, if read { OP_MULTI_READ } else { OP_MULTI });
    let env = encode_multi(ops);
    write_bytes(&mut body, env.as_slice());
    let r = frame(&body);
    proof {
        assert(r@ =~= be_bytes32((multi_bytes(ops@).len() + 8) as u32) + be_bytes32(xid as u32)
            + be_bytes32((if read { OP_MULTI_READ } else { OP_MULTI }) as u32) + multi_bytes(ops@));
    }
    r
}

} // verus!
