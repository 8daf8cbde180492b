use vstd::prelude::*;
use vstd::utf8::{
    decode_utf8, encode_utf8, encode_utf8_decode_utf8, encode_utf8_valid_utf8, valid_utf8,
};
use crate::codec::{
    be_bytes32, be_bytes64, be_i32_at, be_i64_at, lemma_be32_round_trip, lemma_be64_round_trip,
    multi_header_bytes, read_i32, read_i32_spec, read_i64, ustring_bytes,
};
use crate::consts::error_code;
use crate::consts::{error_of_code, ZkError};
use crate::data::Stat;
use crate::multi_op::{MultiReply, ReadReply};
use crate::proto::{
    OP_CHECK, OP_CREATE, OP_CREATE2, OP_CREATE_TTL, OP_DELETE, OP_GET_CHILDREN, OP_GET_DATA, OP_SET_DATA,
};

verus! {

/// Bytes of an encoded `Stat`.
pub const STAT_LEN: usize = 68;

/// What a decoded write-multi reply entry holds.
pub enum ReplyView {
    Create(Seq<char>),
    Create2(Seq<char>, Stat),
    CreateTtl(Seq<char>, Stat),
    SetData(Stat),
    Delete,
    Check,
    RolledBack,
    Error(ZkError),
}

/// What a reply entry holds.
pub open spec fn reply_view(r: MultiReply) -> ReplyView {
    match r {
        MultiReply::Create(p) => ReplyView::Create(p@),
        MultiReply::Create2(p, s) => ReplyView::Create2(p@, s),
        MultiReply::CreateTtl(p, s) => ReplyView::CreateTtl(p@, s),
        MultiReply::SetData(s) => ReplyView::SetData(s),
        MultiReply::Delete => ReplyView::Delete,
        MultiReply::Check => ReplyView::Check,
        MultiReply::RolledBack => ReplyView::RolledBack,
        MultiReply::Error(e) => ReplyView::Error(e),
    }
}

/// The node metadata encoded at `pos` of `b`.
pub open spec fn stat_at(b: Seq<u8>, pos: int) -> Stat {
    Stat {
        czxid: be_i64_at(b, pos),
        mzxid: be_i64_at(b, pos + 8),
        ctime: be_i64_at(b, pos + 16),
        mtime: be_i64_at(b, pos + 24),
        version: be_i32_at(b, pos + 32),
        cversion: be_i32_at(b, pos + 36),
        aversion: be_i32_at(b, pos + 40),
        ephemeral_owner: be_i64_at(b, pos + 44),
        data_length: be_i32_at(b, pos + 52),
        num_children: be_i32_at(b, pos + 56),
        pzxid: be_i64_at(b, pos + 60),
    }
}

/// The string encoded at `pos` of `b` (a non-negative length, then that many
/// bytes of valid UTF-8) and the position after it.
pub open spec fn ustring_at(b: Seq<u8>, pos: int) -> Option<(Seq<char>, int)> {
    if 0 <= pos && pos + 4 <= b.len() {
        let n = be_i32_at(b, pos) as int;
        if 0 <= n && pos + 4 + n <= b.len() && valid_utf8(b.subrange(pos + 4, pos + 4 + n)) {
            Some((decode_utf8(b.subrange(pos + 4, pos + 4 + n)), pos + 4 + n))
        } else {
            None
        }
    } else {
        None
    }
}

/// A string followed by node metadata, at `pos` of `b`.
pub open spec fn path_stat_at(b: Seq<u8>, pos: int) -> Option<(Seq<char>, Stat, int)> {
    match ustring_at(b, pos) {
        Some((p, next)) => if next + STAT_LEN <= b.len() {
            Some((p, stat_at(b, next), next + STAT_LEN))
        } else {
            None
        },
        None => None,
    }
}

/// The body of an entry of type `t` at `pos` of `b`, and the position after it.
pub open spec fn entry_body(b: Seq<u8>, t: i32, pos: int) -> Option<(ReplyView, int)> {
    if t == -1 {
        match read_i32_spec(b, pos) {
            Some((code, next)) => if code == 0 {
                Some((ReplyView::RolledBack, next as int))
            } else {
                match error_of_code(code as int) {
                    Some(e) => Some((ReplyView::Error(e), next as int)),
                    None => None,
                }
            },
            None => None,
        }
    } else if t == OP_CREATE {
        match ustring_at(b, pos) {
            Some((p, next)) => Some((ReplyView::Create(p), next)),
            None => None,
        }
    } else if t == OP_CREATE2 {
        match path_stat_at(b, pos) {
            Some((p, s, next)) => Some((ReplyView::Create2(p, s), next)),
            None => None,
        }
    } else if t == OP_CREATE_TTL {
        match path_stat_at(b, pos) {
            Some((p, s, next)) => Some((ReplyView::CreateTtl(p, s), next)),
            None => None,
        }
    } else if t == OP_SET_DATA {
        if 0 <= pos && pos + STAT_LEN <= b.len() {
            Some((ReplyView::SetData(stat_at(b, pos)), pos + STAT_LEN))
        } else {
            None
        }
    } else if t == OP_DELETE {
        Some((ReplyView::Delete, pos))
    } else if t == OP_CHECK {
        Some((ReplyView::Check, pos))
    } else {
        None
    }
}

/// The entries of a write-multi reply from `pos` of `b` to its end: each behind
/// a header (type, done flag, error), until a header with the done flag, which
/// must end the bytes.
pub open spec fn entries_from(b: Seq<u8>, pos: int) -> Option<Seq<ReplyView>>
    decreases b.len() - pos,
{
    if pos < 0 || pos + 9 > b.len() {
        None
    } else if b[pos + 4] != 0 {
        if pos + 9 == b.len() {
            Some(Seq::empty())
        } else {
            None
        }
    } else {
        match entry_body(b, be_i32_at(b, pos), pos + 9) {
            Some((e, next)) => if next > pos {
                match entries_from(b, next) {
                    Some(rest) => Some(seq![e] + rest),
                    None => None,
                }
            } else {
                None
            },
            None => None,
        }
    }
}

/// `done` followed by `rest`, where a missing rest makes the whole missing.
pub open spec fn followed_by(done: Seq<ReplyView>, rest: Option<Seq<ReplyView>>) -> Option<Seq<ReplyView>> {
    match rest {
        Some(r) => Some(done + r),
        None => None,
    }
}

/// Relies on String::from_utf8: it succeeds exactly on valid UTF-8, and the
/// string holds the characters those bytes encode.
#[verifier::external_body]
fn string_from_utf8(bytes: Vec<u8>) -> (r: Option<String>)
    ensures
        r is Some <==> valid_utf8(bytes@),
        r matches Some(s) ==> s@ == decode_utf8(bytes@),
{
    String::from_utf8(bytes).ok()
}

pub(crate) fn read_ustring(buf: &[u8], pos: usize) -> (r: Option<(String, usize)>)
    ensures
        match ustring_at(buf@, pos as int) {
            Some((p, next)) => r matches Some((s, n)) && s@ == p && n == next,
            None => r is None,
        },
{
    let (n, start) = match read_i32(buf, pos) {
        Some(x) => x,
        None => return None,
    };
    if n < 0 || buf.len() - start < n as usize {
        return None;
    }
    let end = start + n as usize;
    let mut bytes: Vec<u8> = Vec::new();
    let mut i: usize = start;
    while i < end
        invariant
            start <= i <= end,
            end <= buf@.len(),
            bytes@ == buf@.subrange(start as int, i as int),
        decreases end - i,
    {
        bytes.push(buf[i]);
        i = i + 1;
        proof {
            assert(bytes@ =~= buf@.subrange(start as int, i as int));
        }
    }
    match string_from_utf8(bytes) {
        Some(s) => Some((s, end)),
        None => None,
    }
}

fn read_stat(buf: &[u8], pos: usize) -> (r: Option<(Stat, usize)>)
    ensures
        pos + STAT_LEN <= buf@.len() ==> (r matches Some((st, n)) && st == stat_at(buf@, pos as int)
            && n == pos + STAT_LEN),
        pos + STAT_LEN > buf@.len() ==> r is None,
{
    if pos > buf.len() || buf.len() - pos < STAT_LEN {
        return None;
    }
    let (czxid, p) = read_i64(buf, pos).unwrap();
    let (mzxid, p) = read_i64(buf, p).unwrap();
    let (ctime, p) = read_i64(buf, p).unwrap();
    let (mtime, p) = read_i64(buf, p).unwrap();
    let (version, p) = read_i32(buf, p).unwrap();
    let (cversion, p) = read_i32(buf, p).unwrap();
    let (aversion, p) = read_i32(buf, p).unwrap();
    let (ephemeral_owner, p) = read_i64(buf, p).unwrap();
    let (data_length, p) = read_i32(buf, p).unwrap();
    let (num_children, p) = read_i32(buf, p).unwrap();
    let (pzxid, p) = read_i64(buf, p).unwrap();
    let stat = Stat {
        czxid,
        mzxid,
        ctime,
        mtime,
        version,
        cversion,
        aversion,
        ephemeral_owner,
        data_length,
        num_children,
        pzxid,
    };
    Some((stat, p))
}

fn read_path_stat(buf: &[u8], pos: usize) -> (r: Option<(String, Stat, usize)>)
    ensures
        match path_stat_at(buf@, pos as int) {
            Some((p, st, next)) => r matches Some((x, y, n)) && x@ == p && y == st && n == next,
            None => r is None,
        },
{
    let (p, next) = match read_ustring(buf, pos) {
        Some(x) => x,
        None => return None,
    };
    match read_stat(buf, next) {
        Some((st, n)) => Some((p, st, n)),
        None => None,
    }
}

fn read_entry_body(buf: &[u8], t: i32, pos: usize) -> (r: Option<(MultiReply, usize)>)
    ensures
        match entry_body(buf@, t, pos as int) {
            Some((e, next)) => r matches Some((x, n)) && reply_view(x) == e && n == next,
            None => r is None,
        },
{
    if t == -1 {
        let (code, next) = match read_i32(buf, pos) {
            Some(x) => x,
            None => return None,
        };
        if code == 0 {
            return Some((MultiReply::RolledBack, next));
        }
        match ZkError::from_code(code) {
            Some(e) => Some((MultiReply::Error(e), next)),
            None => None,
        }
    } else if t == OP_CREATE {
        match read_ustring(buf, pos) {
            Some((p, next)) => Some((MultiReply::Create(p), next)),
            None => None,
        }
    } else if t == OP_CREATE2 {
        match read_path_stat(buf, pos) {
            Some((p, st, next)) => Some((MultiReply::Create2(p, st), next)),
            None => None,
        }
    } else if t == OP_CREATE_TTL {
        match read_path_stat(buf, pos) {
            Some((p, st, next)) => Some((MultiReply::CreateTtl(p, st), next)),
            None => None,
        }
    } else if t == OP_SET_DATA {
        match read_stat(buf, pos) {
            Some((st, next)) => Some((MultiReply::SetData(st), next)),
            None => None,
        }
    } else if t == OP_DELETE {
        Some((MultiReply::Delete, pos))
    } else if t == OP_CHECK {
        Some((MultiReply::Check, pos))
    } else {
        None
    }
}

/// Decodes the body of a write-multi reply into its entries, in order; bytes
/// that do not follow the format are a `MarshallingError`.
pub fn decode_multi_reply(buf: &[u8]) -> (r: Result<Vec<MultiReply>, ZkError>)
    ensures
        match entries_from(buf@, 0) {
            Some(v) => r matches Ok(x) && x@.map_values(|e: MultiReply| reply_view(e)) == v,
            None => r == Err::<Vec<MultiReply>, ZkError>(ZkError::MarshallingError),
        },
{
    let n = buf.len();
    let mut out: Vec<MultiReply> = Vec::new();
    let mut pos: usize = 0;
    loop
        invariant
            n == buf@.len(),
            pos <= n,
            entries_from(buf@, 0) == followed_by(
                out@.map_values(|e: MultiReply| reply_view(e)),
                entries_from(buf@, pos as int),
            ),
        decreases n - pos,
    {
        if n - pos < 9 {
            return Err(ZkError::MarshallingError);
        }
        let t = read_i32(buf, pos).unwrap().0;
        if buf[pos + 4] != 0 {
            if pos + 9 == n {
                proof {
                    assert(out@.map_values(|e: MultiReply| reply_view(e)) + Seq::<ReplyView>::empty()
                        =~= out@.map_values(|e: MultiReply| reply_view(e)));
                }
                return Ok(out);
            }
            return Err(ZkError::MarshallingError);
        }
        match read_entry_body(buf, t, pos + 9) {
            Some((e, next)) => {
                if next <= pos {
                    return Err(ZkError::MarshallingError);
                }
                let ghost before = out@.map_values(|e: MultiReply| reply_view(e));
                let ghost ev = reply_view(e);
                out.push(e);
                proof {
                    assert(out@.map_values(|e: MultiReply| reply_view(e)) =~= before.push(ev));
                    match entries_from(buf@, next as int) {
                        Some(rest) => {
                            assert(before + (seq![ev] + rest) =~= before.push(ev) + rest);
                        },
                        None => {},
                    }
                }
                pos = next;
            },
            None => {
                return Err(ZkError::MarshallingError);
            },
        }
    }
}

/// What a decoded multi-read reply entry holds.
pub enum ReadView {
    GetData(Seq<u8>, Stat),
    GetChildren(Seq<Seq<char>>),
    Error(ZkError),
}

/// What a read reply entry holds.
pub open spec fn read_view(r: ReadReply) -> ReadView {
    match r {
        ReadReply::GetData(d, s) => ReadView::GetData(d@, s),
        ReadReply::GetChildren(c) => ReadView::GetChildren(c@.map_values(|x: String| x@)),
        ReadReply::Error(e) => ReadView::Error(e),
    }
}

/// The byte buffer at `pos` of `b` (a length of `-1` is an empty buffer) and
/// the position after it.
pub open spec fn buffer_at(b: Seq<u8>, pos: int) -> Option<(Seq<u8>, int)> {
    if 0 <= pos && pos + 4 <= b.len() {
        let n = be_i32_at(b, pos) as int;
        if n == -1 {
            Some((Seq::empty(), pos + 4))
        } else if 0 <= n && pos + 4 + n <= b.len() {
            Some((b.subrange(pos + 4, pos + 4 + n), pos + 4 + n))
        } else {
            None
        }
    } else {
        None
    }
}

/// The first `k` strings from `pos` of `b`, and the position after them.
pub open spec fn strings_at(b: Seq<u8>, pos: int, k: nat) -> Option<(Seq<Seq<char>>, int)>
    decreases k,
{
    if k == 0 {
        Some((Seq::empty(), pos))
    } else {
        match strings_at(b, pos, (k - 1) as nat) {
            Some((v, next)) => match ustring_at(b, next) {
                Some((s, after)) => Some((v.push(s), after)),
                None => None,
            },
            None => None,
        }
    }
}

/// The vector of strings at `pos` of `b`: a non-negative count, then the strings.
pub open spec fn string_vector_at(b: Seq<u8>, pos: int) -> Option<(Seq<Seq<char>>, int)> {
    match read_i32_spec(b, pos) {
        Some((k, next)) => if k >= 0 {
            strings_at(b, next as int, k as nat)
        } else {
            None
        },
        None => None,
    }
}

/// The body of a multi-read entry of type `t` at `pos` of `b`.
pub open spec fn read_entry_body_spec(b: Seq<u8>, t: i32, pos: int) -> Option<(ReadView, int)> {
    if t == -1 {
        match read_i32_spec(b, pos) {
            Some((code, next)) => match error_of_code(code as int) {
                Some(e) => Some((ReadView::Error(e), next as int)),
                None => None,
            },
            None => None,
        }
    } else if t == OP_GET_DATA {
        match buffer_at(b, pos) {
            Some((d, next)) => if next + STAT_LEN <= b.len() {
                Some((ReadView::GetData(d, stat_at(b, next)), next + STAT_LEN))
            } else {
                None
            },
            None => None,
        }
    } else if t == OP_GET_CHILDREN {
        match string_vector_at(b, pos) {
            Some((v, next)) => Some((ReadView::GetChildren(v), next)),
            None => None,
        }
    } else {
        None
    }
}

/// The entries of a multi-read reply from `pos` of `b` to its end, framed as
/// those of a write-multi reply.
pub open spec fn read_entries_from(b: Seq<u8>, pos: int) -> Option<Seq<ReadView>>
    decreases b.len() - pos,
{
    if pos < 0 || pos + 9 > b.len() {
        None
    } else if b[pos + 4] != 0 {
        if pos + 9 == b.len() {
            Some(Seq::empty())
        } else {
            None
        }
    } else {
        match read_entry_body_spec(b, be_i32_at(b, pos), pos + 9) {
            Some((e, next)) => if next > pos {
                match read_entries_from(b, next) {
                    Some(rest) => Some(seq![e] + rest),
                    None => None,
                }
            } else {
                None
            },
            None => None,
        }
    }
}

/// `done` followed by `rest`, where a missing rest makes the whole missing.
pub open spec fn read_followed_by(done: Seq<ReadView>, rest: Option<Seq<ReadView>>) -> Option<Seq<ReadView>> {
    match rest {
        Some(r) => Some(done + r),
        None => None,
    }
}

fn read_buffer(buf: &[u8], pos: usize) -> (r: Option<(Vec<u8>, usize)>)
    ensures
        match buffer_at(buf@, pos as int) {
            Some((d, next)) => r matches Some((x, n)) && x@ == d && n == next,
            None => r is None,
        },
{
    let total = buf.len();
    let (n, start) = match read_i32(buf, pos) {
        Some(x) => x,
        None => return None,
    };
    if n == -1 {
        let empty: Vec<u8> = Vec::new();
        proof {
            assert(empty@ =~= Seq::<u8>::empty());
        }
        return Some((empty, start));
    }
    if n < 0 || buf.len() - start < n as usize {
        return None;
    }
    let end = start + n as usize;
    let mut bytes: Vec<u8> = Vec::new();
    let mut i: usize = start;
    while i < end
        invariant
            start <= i <= end,
            end <= buf@.len(),
            bytes@ == buf@.subrange(start as int, i as int),
        decreases end - i,
    {
        bytes.push(buf[i]);
        i = i + 1;
        proof {
            assert(bytes@ =~= buf@.subrange(start as int, i as int));
        }
    }
    Some((bytes, end))
}

fn read_string_vector(buf: &[u8], pos: usize) -> (r: Option<(Vec<String>, usize)>)
    ensures
        match string_vector_at(buf@, pos as int) {
            Some((v, next)) => r matches Some((x, n)) && x@.map_values(|s: String| s@) == v && n
                == next,
            None => r is None,
        },
{
    let total = buf.len();
    let (k, start) = match read_i32(buf, pos) {
        Some(x) => x,
        None => return None,
    };
    if k < 0 {
        return None;
    }
    let mut out: Vec<String> = Vec::new();
    let mut p: usize = start;
    let mut i: i32 = 0;
    while i < k
        invariant
            0 <= i <= k,
            read_i32_spec(buf@, pos as int) == Some((k, start)),
            strings_at(buf@, start as int, i as nat) == Some((out@.map_values(|s: String| s@), p as int)),
        decreases k - i,
    {
        match read_ustring(buf, p) {
            Some((s, next)) => {
                let ghost before = out@.map_values(|s: String| s@);
                out.push(s);
                proof {
                    assert(out@.map_values(|s: String| s@) =~= before.push(s@));
                }
                p = next;
            },
            None => {
                proof {
                    let j = (i + 1) as nat;
                    assert((j - 1) as nat == i as nat);
                    assert(strings_at(buf@, start as int, j) is None);
                    lemma_strings_stop(buf@, start as int, i as nat, k as nat);
                }
                return None;
            },
        }
        i = i + 1;
    }
    Some((out, p))
}

proof fn lemma_strings_stop(b: Seq<u8>, pos: int, i: nat, k: nat)
    requires
        i < k,
        strings_at(b, pos, (i + 1) as nat) is None,
    ensures
        strings_at(b, pos, k) is None,
    decreases k - i,
{
    if i + 1 < k {
        lemma_strings_stop(b, pos, i + 1, k);
    }
}

fn read_read_entry_body(buf: &[u8], t: i32, pos: usize) -> (r: Option<(ReadReply, usize)>)
    ensures
        match read_entry_body_spec(buf@, t, pos as int) {
            Some((e, next)) => r matches Some((x, n)) && read_view(x) == e && n == next,
            None => r is None,
        },
{
    if t == -1 {
        let (code, next) = match read_i32(buf, pos) {
            Some(x) => x,
            None => return None,
        };
        match ZkError::from_code(code) {
            Some(e) => Some((ReadReply::Error(e), next)),
            None => None,
        }
    } else if t == OP_GET_DATA {
        let (d, next) = match read_buffer(buf, pos) {
            Some(x) => x,
            None => return None,
        };
        match read_stat(buf, next) {
            Some((st, n)) => Some((ReadReply::GetData(d, st), n)),
            None => None,
        }
    } else if t == OP_GET_CHILDREN {
        match read_string_vector(buf, pos) {
            Some((v, next)) => Some((ReadReply::GetChildren(v), next)),
            None => None,
        }
    } else {
        None
    }
}

/// Decodes the body of a multi-read reply into its entries, in order; bytes
/// that do not follow the format are a `MarshallingError`.
pub fn decode_multi_read_reply(buf: &[u8]) -> (r: Result<Vec<ReadReply>, ZkError>)
    ensures
        match read_entries_from(buf@, 0) {
            Some(v) => r matches Ok(x) && x@.map_values(|e: ReadReply| read_view(e)) == v,
            None => r == Err::<Vec<ReadReply>, ZkError>(ZkError::MarshallingError),
        },
{
    let n = buf.len();
    let mut out: Vec<ReadReply> = Vec::new();
    let mut pos: usize = 0;
    loop
        invariant
            n == buf@.len(),
            pos <= n,
            read_entries_from(buf@, 0) == read_followed_by(
                out@.map_values(|e: ReadReply| read_view(e)),
                read_entries_from(buf@, pos as int),
            ),
        decreases n - pos,
    {
        if n - pos < 9 {
            return Err(ZkError::MarshallingError);
        }
        let t = read_i32(buf, pos).unwrap().0;
        if buf[pos + 4] != 0 {
            if pos + 9 == n {
                proof {
                    assert(out@.map_values(|e: ReadReply| read_view(e)) + Seq::<ReadView>::empty()
                        =~= out@.map_values(|e: ReadReply| read_view(e)));
                }
                return Ok(out);
            }
            return Err(ZkError::MarshallingError);
        }
        match read_read_entry_body(buf, t, pos + 9) {
            Some((e, next)) => {
                if next <= pos {
                    return Err(ZkError::MarshallingError);
                }
                let ghost before = out@.map_values(|e: ReadReply| read_view(e));
                let ghost ev = read_view(e);
                out.push(e);
                proof {
                    assert(out@.map_values(|e: ReadReply| read_view(e)) =~= before.push(ev));
                    match read_entries_from(buf@, next as int) {
                        Some(rest) => {
                            assert(before + (seq![ev] + rest) =~= before.push(ev) + rest);
                        },
                        None => {},
                    }
                }
                pos = next;
            },
            None => {
                return Err(ZkError::MarshallingError);
            },
        }
    }
}

/// The bytes of node metadata, field by field.
pub open spec fn stat_bytes(s: Stat) -> Seq<u8> {
    be_bytes64(s.czxid as u64) + be_bytes64(s.mzxid as u64) + be_bytes64(s.ctime as u64) + be_bytes64(
        s.mtime as u64,
    ) + be_bytes32(s.version as u32) + be_bytes32(s.cversion as u32) + be_bytes32(s.aversion as u32)
        + be_bytes64(s.ephemeral_owner as u64) + be_bytes32(s.data_length as u32) + be_bytes32(
        s.num_children as u32,
    ) + be_bytes64(s.pzxid as u64)
}

/// The bytes of one write-multi reply entry: its header, then its body.
pub open spec fn reply_entry_bytes(e: ReplyView) -> Seq<u8> {
    match e {
        ReplyView::Create(p) => multi_header_bytes(OP_CREATE, false, 0) + ustring_bytes(p),
        ReplyView::Create2(p, st) => multi_header_bytes(OP_CREATE2, false, 0) + ustring_bytes(p)
            + stat_bytes(st),
        ReplyView::CreateTtl(p, st) => multi_header_bytes(OP_CREATE_TTL, false, 0) + ustring_bytes(p)
            + stat_bytes(st),
        ReplyView::SetData(st) => multi_header_bytes(OP_SET_DATA, false, 0) + stat_bytes(st),
        ReplyView::Delete => multi_header_bytes(OP_DELETE, false, 0),
        ReplyView::Check => multi_header_bytes(OP_CHECK, false, 0),
        ReplyView::RolledBack => multi_header_bytes(-1i32, false, 0) + be_bytes32(0),
        ReplyView::Error(e) => multi_header_bytes(-1i32, false, error_code(e) as i32) + be_bytes32(
            error_code(e) as u32,
        ),
    }
}

/// The bytes of a write-multi reply: its entries, then the closing header.
pub open spec fn reply_bytes(v: Seq<ReplyView>) -> Seq<u8>
    decreases v.len(),
{
    if v.len() == 0 {
        multi_header_bytes(-1i32, true, -1i32)
    } else {
        reply_entry_bytes(v[0]) + reply_bytes(v.drop_first())
    }
}

/// Every path of the entries fits the wire's length prefix.
pub open spec fn reply_paths_fit(v: Seq<ReplyView>) -> bool {
    forall|i: int|
        0 <= i < v.len() ==> match #[trigger] v[i] {
            ReplyView::Create(p) | ReplyView::Create2(p, _) | ReplyView::CreateTtl(p, _) =>
                encode_utf8(p).len() <= i32::MAX,
            _ => true,
        }
}

proof fn lemma_i32_at(b: Seq<u8>, pos: int, v: i32)
    requires
        0 <= pos,
        pos + 4 <= b.len(),
        b.subrange(pos, pos + 4) == be_bytes32(v as u32),
    ensures
        be_i32_at(b, pos) == v,
{
    lemma_be32_round_trip(v as u32);
    assert(b[pos] == b.subrange(pos, pos + 4)[0]);
    assert(b[pos + 1] == b.subrange(pos, pos + 4)[1]);
    assert(b[pos + 2] == b.subrange(pos, pos + 4)[2]);
    assert(b[pos + 3] == b.subrange(pos, pos + 4)[3]);
    assert(((v as u32) as i32) == v) by (bit_vector);
}

proof fn lemma_i64_at(b: Seq<u8>, pos: int, v: i64)
    requires
        0 <= pos,
        pos + 8 <= b.len(),
        b.subrange(pos, pos + 8) == be_bytes64(v as u64),
    ensures
        be_i64_at(b, pos) == v,
{
    lemma_be64_round_trip(v as u64);
    assert forall|k: int| 0 <= k < 8 implies b[pos + k] == #[trigger] be_bytes64(v as u64)[k] by {
        assert(b[pos + k] == b.subrange(pos, pos + 8)[k]);
    }
    assert(((v as u64) as i64) == v) by (bit_vector);
}

proof fn lemma_sub(b: Seq<u8>, pos: int, whole: Seq<u8>, o: int, n: int)
    requires
        0 <= pos,
        pos + whole.len() <= b.len(),
        b.subrange(pos, pos + whole.len()) == whole,
        0 <= o,
        0 <= n,
        o + n <= whole.len(),
    ensures
        b.subrange(pos + o, pos + o + n) == whole.subrange(o, o + n),
{
    assert(b.subrange(pos + o, pos + o + n) =~= whole.subrange(o, o + n)) by {
        assert forall|k: int| 0 <= k < n implies #[trigger] b.subrange(pos + o, pos + o + n)[k] == whole.subrange(o, o + n)[k] by {
            assert(b[pos + o + k] == b.subrange(pos, pos + whole.len())[o + k]);
        }
    }
}

proof fn lemma_stat_at(b: Seq<u8>, pos: int, st: Stat)
    requires
        0 <= pos,
        pos + STAT_LEN <= b.len(),
        b.subrange(pos, pos + STAT_LEN) == stat_bytes(st),
    ensures
        stat_at(b, pos) == st,
{
    let sb = stat_bytes(st);
    assert(sb.len() == STAT_LEN);
    assert(sb.subrange(0, 8) =~= be_bytes64(st.czxid as u64));
    assert(sb.subrange(8, 16) =~= be_bytes64(st.mzxid as u64));
    assert(sb.subrange(16, 24) =~= be_bytes64(st.ctime as u64));
    assert(sb.subrange(24, 32) =~= be_bytes64(st.mtime as u64));
    assert(sb.subrange(32, 36) =~= be_bytes32(st.version as u32));
    assert(sb.subrange(36, 40) =~= be_bytes32(st.cversion as u32));
    assert(sb.subrange(40, 44) =~= be_bytes32(st.aversion as u32));
    assert(sb.subrange(44, 52) =~= be_bytes64(st.ephemeral_owner as u64));
    assert(sb.subrange(52, 56) =~= be_bytes32(st.data_length as u32));
    assert(sb.subrange(56, 60) =~= be_bytes32(st.num_children as u32));
    assert(sb.subrange(60, 68) =~= be_bytes64(st.pzxid as u64));
    lemma_sub(b, pos, sb, 0, 8);
    lemma_sub(b, pos, sb, 8, 8);
    lemma_sub(b, pos, sb, 16, 8);
    lemma_sub(b, pos, sb, 24, 8);
    lemma_sub(b, pos, sb, 32, 4);
    lemma_sub(b, pos, sb, 36, 4);
    lemma_sub(b, pos, sb, 40, 4);
    lemma_sub(b, pos, sb, 44, 8);
    lemma_sub(b, pos, sb, 52, 4);
    lemma_sub(b, pos, sb, 56, 4);
    lemma_sub(b, pos, sb, 60, 8);
    lemma_i64_at(b, pos, st.czxid);
    lemma_i64_at(b, pos + 8, st.mzxid);
    lemma_i64_at(b, pos + 16, st.ctime);
    lemma_i64_at(b, pos + 24, st.mtime);
    lemma_i32_at(b, pos + 32, st.version);
    lemma_i32_at(b, pos + 36, st.cversion);
    lemma_i32_at(b, pos + 40, st.aversion);
    lemma_i64_at(b, pos + 44, st.ephemeral_owner);
    lemma_i32_at(b, pos + 52, st.data_length);
    lemma_i32_at(b, pos + 56, st.num_children);
    lemma_i64_at(b, pos + 60, st.pzxid);
}

proof fn lemma_ustring_at(b: Seq<u8>, pos: int, p: Seq<char>)
    requires
        0 <= pos,
        encode_utf8(p).len() <= i32::MAX,
        pos + 4 + encode_utf8(p).len() <= b.len(),
        b.subrange(pos, pos + 4 + encode_utf8(p).len()) == ustring_bytes(p),
    ensures
        ustring_at(b, pos) == Some((p, pos + 4 + encode_utf8(p).len())),
{
    let e = encode_utf8(p);
    let l = e.len() as int;
    let u = ustring_bytes(p);
    assert(u.subrange(0, 4) =~= be_bytes32(l as u32));
    assert(u.subrange(4, 4 + l) =~= e);
    lemma_sub(b, pos, u, 0, 4);
    lemma_sub(b, pos, u, 4, l);
    assert((l as i32) as u32 == l as u32);
    lemma_i32_at(b, pos, l as i32);
    encode_utf8_valid_utf8(p);
    encode_utf8_decode_utf8(p);
}

proof fn lemma_header_at(b: Seq<u8>, pos: int, t: i32, done: bool, err: i32)
    requires
        0 <= pos,
        pos + 9 <= b.len(),
        b.subrange(pos, pos + 9) == multi_header_bytes(t, done, err),
    ensures
        be_i32_at(b, pos) == t,
        (b[pos + 4] != 0) == done,
{
    let h = multi_header_bytes(t, done, err);
    assert(h.subrange(0, 4) =~= be_bytes32(t as u32));
    lemma_sub(b, pos, h, 0, 4);
    lemma_i32_at(b, pos, t);
    assert(b[pos + 4] == b.subrange(pos, pos + 9)[4]);
}

#[verifier::spinoff_prover]
#[verifier::rlimit(100)]
proof fn lemma_entry_at(b: Seq<u8>, pos: int, e: ReplyView)
    requires
        0 <= pos,
        pos + reply_entry_bytes(e).len() <= b.len(),
        b.len() <= usize::MAX,
        b.subrange(pos, pos + reply_entry_bytes(e).len()) == reply_entry_bytes(e),
        match e {
            ReplyView::Create(p) | ReplyView::Create2(p, _) | ReplyView::CreateTtl(p, _) =>
                encode_utf8(p).len() <= i32::MAX,
            _ => true,
        },
    ensures
        reply_entry_bytes(e).len() >= 9,
        b[pos + 4] == 0,
        entry_body(b, be_i32_at(b, pos), pos + 9) == Some((e, pos + reply_entry_bytes(e).len())),
{
    let w = reply_entry_bytes(e);
    let n = w.len() as int;
    match e {
        ReplyView::Create(p) => {
            let h = multi_header_bytes(OP_CREATE, false, 0);
            lemma_sub(b, pos, w, 0, 9);
            assert(w.subrange(0, 9) =~= h);
            lemma_header_at(b, pos, OP_CREATE, false, 0);
            lemma_sub(b, pos, w, 9, n - 9);
            assert(w.subrange(9, n) =~= ustring_bytes(p));
            lemma_ustring_at(b, pos + 9, p);
        },
        ReplyView::Create2(p, st) => {
            let h = multi_header_bytes(OP_CREATE2, false, 0);
            let l = 4 + encode_utf8(p).len() as int;
            lemma_sub(b, pos, w, 0, 9);
            assert(w.subrange(0, 9) =~= h);
            lemma_header_at(b, pos, OP_CREATE2, false, 0);
            lemma_sub(b, pos, w, 9, l);
            assert(w.subrange(9, 9 + l) =~= ustring_bytes(p));
            lemma_ustring_at(b, pos + 9, p);
            lemma_sub(b, pos, w, 9 + l, STAT_LEN as int);
            assert(w.subrange(9 + l, 9 + l + STAT_LEN) =~= stat_bytes(st));
            lemma_stat_at(b, pos + 9 + l, st);
        },
        ReplyView::CreateTtl(p, st) => {
            let h = multi_header_bytes(OP_CREATE_TTL, false, 0);
            let l = 4 + encode_utf8(p).len() as int;
            lemma_sub(b, pos, w, 0, 9);
            assert(w.subrange(0, 9) =~= h);
            lemma_header_at(b, pos, OP_CREATE_TTL, false, 0);
            lemma_sub(b, pos, w, 9, l);
            assert(w.subrange(9, 9 + l) =~= ustring_bytes(p));
            lemma_ustring_at(b, pos + 9, p);
            lemma_sub(b, pos, w, 9 + l, STAT_LEN as int);
            assert(w.subrange(9 + l, 9 + l + STAT_LEN) =~= stat_bytes(st));
            lemma_stat_at(b, pos + 9 + l, st);
        },
        ReplyView::SetData(st) => {
            let h = multi_header_bytes(OP_SET_DATA, false, 0);
            lemma_sub(b, pos, w, 0, 9);
            assert(w.subrange(0, 9) =~= h);
            lemma_header_at(b, pos, OP_SET_DATA, false, 0);
            lemma_sub(b, pos, w, 9, STAT_LEN as int);
            assert(w.subrange(9, 9 + STAT_LEN) =~= stat_bytes(st));
            lemma_stat_at(b, pos + 9, st);
        },
        ReplyView::Delete => {
            lemma_header_at(b, pos, OP_DELETE, false, 0);
        },
        ReplyView::Check => {
            lemma_header_at(b, pos, OP_CHECK, false, 0);
        },
        ReplyView::RolledBack => {
            let h = multi_header_bytes(-1i32, false, 0);
            lemma_sub(b, pos, w, 0, 9);
            assert(w.subrange(0, 9) =~= h);
            lemma_header_at(b, pos, -1i32, false, 0);
            lemma_sub(b, pos, w, 9, 4);
            assert(w.subrange(9, 13) =~= be_bytes32(0i32 as u32));
            lemma_i32_at(b, pos + 9, 0);
        },
        ReplyView::Error(x) => {
            let c = error_code(x) as i32;
            let h = multi_header_bytes(-1i32, false, c);
            lemma_sub(b, pos, w, 0, 9);
            assert(w.subrange(0, 9) =~= h);
            lemma_header_at(b, pos, -1i32, false, c);
            lemma_sub(b, pos, w, 9, 4);
            assert(w.subrange(9, 13) =~= be_bytes32(c as u32));
            lemma_i32_at(b, pos + 9, c);
            crate::consts::lemma_error_code_round_trip(x);
        },
    }
}

proof fn lemma_entries_after(pre: Seq<u8>, v: Seq<ReplyView>)
    requires
        reply_paths_fit(v),
        pre.len() + reply_bytes(v).len() <= usize::MAX,
    ensures
        entries_from(pre + reply_bytes(v), pre.len() as int) == Some(v),
    decreases v.len(),
{
    let b = pre + reply_bytes(v);
    let pos = pre.len() as int;
    if v.len() == 0 {
        assert(b.subrange(pos, pos + 9) =~= multi_header_bytes(-1i32, true, -1i32));
        lemma_header_at(b, pos, -1i32, true, -1i32);
    } else {
        let e = v[0];
        let w = reply_entry_bytes(e);
        let rest = v.drop_first();
        assert(reply_bytes(v) == w + reply_bytes(rest));
        assert(b.subrange(pos, pos + w.len()) =~= w);
        assert(match v[0] {
            ReplyView::Create(p) | ReplyView::Create2(p, _) | ReplyView::CreateTtl(p, _) =>
                encode_utf8(p).len() <= i32::MAX,
            _ => true,
        });
        lemma_entry_at(b, pos, e);
        let pre2 = pre + w;
        assert(b =~= pre2 + reply_bytes(rest));
        assert forall|i: int| 0 <= i < rest.len() implies match #[trigger] rest[i] {
            ReplyView::Create(p) | ReplyView::Create2(p, _) | ReplyView::CreateTtl(p, _) =>
                encode_utf8(p).len() <= i32::MAX,
            _ => true,
        } by {
            assert(rest[i] == v[i + 1]);
        }
        lemma_entries_after(pre2, rest);
        assert(seq![e] + rest =~= v);
    }
}

/// Decoding the bytes of a write-multi reply gives back its entries.
pub proof fn lemma_reply_round_trip(v: Seq<ReplyView>)
    requires
        reply_paths_fit(v),
        reply_bytes(v).len() <= usize::MAX,
    ensures
        entries_from(reply_bytes(v), 0) == Some(v),
{
    lemma_entries_after(Seq::empty(), v);
    assert(Seq::<u8>::empty() + reply_bytes(v) =~= reply_bytes(v));
}

} // verus!
