use vstd::prelude::*;
use vstd::string::StrSliceExecFns;
use crate::consts::ZkError;
use crate::paths::{valid_chroot, validate_path};

verus! {

broadcast use vstd::string::to_string_from_display_ensures_for_str;

/// Index of the first `/` of `s` at or after `i`, or the length of `s`.
pub open spec fn slash_from(s: Seq<char>, i: int) -> int
    decreases s.len() - i,
{
    if i < 0 || i >= s.len() {
        s.len() as int
    } else if s[i] == '/' {
        i
    } else {
        slash_from(s, i + 1)
    }
}

/// The pieces of `s` between commas, in order (one piece when there is no comma).
pub open spec fn split_commas(s: Seq<char>) -> Seq<Seq<char>>
    decreases s.len(),
{
    if s.len() == 0 {
        seq![Seq::empty()]
    } else {
        let r = split_commas(s.drop_last());
        if s.last() == ',' {
            r.push(Seq::empty())
        } else {
            r.update(r.len() - 1, r.last().push(s.last()))
        }
    }
}

/// The chroot named after the host list: what follows its first `/`, where a
/// lone `/` names none.
pub open spec fn chroot_part(s: Seq<char>) -> Seq<char> {
    let tail = s.subrange(slash_from(s, 0), s.len() as int);
    if tail == seq!['/'] {
        Seq::empty()
    } else {
        tail
    }
}

/// The host entries of a connect string.
pub open spec fn host_part(s: Seq<char>) -> Seq<Seq<char>> {
    split_commas(s.subrange(0, slash_from(s, 0)))
}

/// A parsed connect string: `host:port` entries and the chroot (`""` for none).
#[derive(Debug)]
pub struct ConnectString {
    pub hosts: Vec<String>,
    pub chroot: String,
}

proof fn lemma_split_len(s: Seq<char>)
    ensures
        split_commas(s).len() >= 1,
    decreases s.len(),
{
    if s.len() > 0 {
        lemma_split_len(s.drop_last());
    }
}

fn find_slash(s: &str) -> (r: usize)
    ensures
        r == slash_from(s@, 0),
        r <= s@.len(),
{
    let n = s.unicode_len();
    let mut i: usize = 0;
    while i < n
        invariant
            n == s@.len(),
            i <= n,
            slash_from(s@, 0) == slash_from(s@, i as int),
        decreases n - i,
    {
        if s.get_char(i) == '/' {
            return i;
        }
        i = i + 1;
    }
    i
}

fn split_hosts(s: &str, k: usize) -> (r: Vec<String>)
    requires
        k <= s@.len(),
    ensures
        r@.map_values(|h: String| h@) == split_commas(s@.subrange(0, k as int)),
{
    let mut parts: Vec<String> = Vec::new();
    let mut start: usize = 0;
    let mut i: usize = 0;
    proof {
        assert(s@.subrange(0, 0) =~= Seq::<char>::empty());
        assert(parts@.map_values(|h: String| h@).push(s@.subrange(0, 0)) =~= seq![
            Seq::<char>::empty(),
        ]);
    }
    while i < k
        invariant
            k <= s@.len(),
            start <= i <= k,
            parts@.map_values(|h: String| h@).push(s@.subrange(start as int, i as int))
                == split_commas(s@.subrange(0, i as int)),
        decreases k - i,
    {
        let c = s.get_char(i);
        let ghost before = parts@.map_values(|h: String| h@);
        proof {
            let cur = s@.subrange(0, i + 1);
            assert(cur.drop_last() =~= s@.subrange(0, i as int));
            assert(cur.last() == c);
        }
        if c == ',' {
            let piece = s.substring_char(start, i).to_string();
            parts.push(piece);
            proof {
                assert(parts@.map_values(|h: String| h@) =~= before.push(s@.subrange(start as int, i as int)));
                assert(s@.subrange(i + 1, i + 1) =~= Seq::<char>::empty());
            }
            start = i + 1;
        } else {
            proof {
                let r = split_commas(s@.subrange(0, i as int));
                assert(s@.subrange(start as int, i + 1) =~= s@.subrange(start as int, i as int).push(c));
                assert(before.push(s@.subrange(start as int, i + 1)) =~= r.update(
                    r.len() - 1,
                    r.last().push(c),
                ));
            }
        }
        i = i + 1;
    }
    let last = s.substring_char(start, k).to_string();
    parts.push(last);
    proof {
        assert(parts@.map_values(|h: String| h@) =~= split_commas(s@.subrange(0, k as int)));
    }
    parts
}

/// Parses `host:port[,host:port...][/chroot]`. Every host entry must be
/// non-empty and the chroot a valid path; otherwise `BadArguments`.
pub fn parse_connect_string(s: &str) -> (r: Result<ConnectString, ZkError>)
    ensures
        r is Ok <==> (forall|i: int|
            0 <= i < host_part(s@).len() ==> (#[trigger] host_part(s@)[i]).len() > 0)
            && valid_chroot(chroot_part(s@)),
        r matches Ok(c) ==> c.hosts@.map_values(|h: String| h@) == host_part(s@) && c.chroot@
            == chroot_part(s@),
        r is Err ==> r == Err::<ConnectString, ZkError>(ZkError::BadArguments),
{
    let n = s.unicode_len();
    let k = find_slash(s);
    let hosts = split_hosts(s, k);
    let ghost hv = hosts@.map_values(|h: String| h@);
    let mut i: usize = 0;
    while i < hosts.len()
        invariant
            hv == hosts@.map_values(|h: String| h@),
            hv == host_part(s@),
            i <= hosts@.len(),
            forall|j: int| 0 <= j < i ==> (#[trigger] host_part(s@)[j]).len() > 0,
        decreases hosts@.len() - i,
    {
        if hosts[i].as_str().unicode_len() == 0 {
            proof {
                assert(hv[i as int] == hosts@[i as int]@);
            }
            return Err(ZkError::BadArguments);
        }
        proof {
            assert(hv[i as int] == hosts@[i as int]@);
        }
        i = i + 1;
    }
    let tail = s.substring_char(k, n);
    if tail.unicode_len() == 1 && tail.get_char(0) == '/' {
        proof {
            assert(tail@ =~= seq!['/']);
        }
        let chroot = "".to_string();
        proof {
            reveal_strlit("");
            assert(chroot@ =~= Seq::<char>::empty());
        }
        return Ok(ConnectString { hosts, chroot });
    }
    proof {
        if tail@ == seq!['/'] {
            assert(tail@[0] == '/');
        }
    }
    if tail.unicode_len() > 0 {
        match validate_path(tail) {
            Ok(()) => {},
            Err(e) => {
                return Err(e);
            },
        }
    }
    Ok(ConnectString { hosts, chroot: tail.to_string() })
}

} // verus!
