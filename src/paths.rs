use vstd::prelude::*;
use vstd::string::{StrSliceExecFns, StringExecFns};
use crate::consts::ZkError;

verus! {

broadcast use vstd::string::to_string_from_display_ensures_for_str;

/// A character that may not stand in a path: the null byte and the other
/// control characters.
pub open spec fn is_control(c: char) -> bool {
    (c as u32) < 32 || (c as u32) == 127
}

/// The segment that starts at `j` is `.` or `..`.
pub open spec fn dot_segment_at(p: Seq<char>, j: int) -> bool {
    ||| (j < p.len() && p[j] == '.' && (j + 1 == p.len() || p[j + 1] == '/'))
    ||| (j + 1 < p.len() && p[j] == '.' && p[j + 1] == '.' && (j + 2 == p.len() || p[j + 2] == '/'))
}

/// What position `i` of a path must satisfy: no control character, and a
/// slash is neither doubled, nor trailing (but for the root), nor followed by
/// a `.` or `..` segment.
pub open spec fn ok_at(p: Seq<char>, i: int) -> bool {
    &&& !is_control(p[i])
    &&& p[i] == '/' ==> {
        &&& i + 1 < p.len() ==> p[i + 1] != '/'
        &&& i + 1 == p.len() ==> p.len() == 1
        &&& !dot_segment_at(p, i + 1)
    }
}

/// An absolute, normalized node path.
pub open spec fn valid_path(p: Seq<char>) -> bool {
    &&& p.len() > 0
    &&& p[0] == '/'
    &&& forall|i: int| 0 <= i < p.len() ==> #[trigger] ok_at(p, i)
}

fn is_control_exec(c: char) -> (r: bool)
    ensures
        r == is_control(c),
{
    (c as u32) < 32 || (c as u32) == 127
}

/// Checks a path given to an operation; a malformed one is `BadArguments`.
pub fn validate_path(path: &str) -> (r: Result<(), ZkError>)
    ensures
        r is Ok <==> valid_path(path@),
        r is Err ==> r == Err::<(), ZkError>(ZkError::BadArguments),
{
    let n = path.unicode_len();
    if n == 0 || path.get_char(0) != '/' {
        return Err(ZkError::BadArguments);
    }
    let mut i: usize = 0;
    while i < n
        invariant
            n == path@.len(),
            i <= n,
            forall|k: int| 0 <= k < i ==> #[trigger] ok_at(path@, k),
        decreases n - i,
    {
        let c = path.get_char(i);
        if is_control_exec(c) {
            proof {
                assert(!ok_at(path@, i as int));
            }
            return Err(ZkError::BadArguments);
        }
        if c == '/' {
            if i + 1 == n {
                if n != 1 {
                    proof {
                        assert(!ok_at(path@, i as int));
                    }
                    return Err(ZkError::BadArguments);
                }
            } else {
                let c1 = path.get_char(i + 1);
                if c1 == '/' {
                    proof {
                        assert(!ok_at(path@, i as int));
                    }
                    return Err(ZkError::BadArguments);
                }
                if c1 == '.' {
                    if i + 2 == n || path.get_char(i + 2) == '/' {
                        proof {
                            assert(!ok_at(path@, i as int));
                        }
                        return Err(ZkError::BadArguments);
                    }
                    if path.get_char(i + 2) == '.' && (i + 3 == n || path.get_char(i + 3) == '/') {
                        proof {
                            assert(!ok_at(path@, i as int));
                        }
                        return Err(ZkError::BadArguments);
                    }
                }
            }
        }
        assert(ok_at(path@, i as int));
        i = i + 1;
    }
    Ok(())
}

/// The path sent on the wire for `path` under `chroot` (`""` for none): the
/// root is the chroot itself, any other path is appended to it.
pub open spec fn chrooted(chroot: Seq<char>, path: Seq<char>) -> Seq<char> {
    if chroot.len() > 0 && path == seq!['/'] {
        chroot
    } else {
        chroot + path
    }
}

/// The path a caller sees for a server path `path` under `chroot`, or `None`
/// when it lies outside the chroot.
pub open spec fn unchrooted(chroot: Seq<char>, path: Seq<char>) -> Option<Seq<char>> {
    if chroot.len() == 0 {
        Some(path)
    } else if path == chroot {
        Some(seq!['/'])
    } else if path.len() > chroot.len() && path.subrange(0, chroot.len() as int) == chroot
        && path[chroot.len() as int] == '/' {
        Some(path.subrange(chroot.len() as int, path.len() as int))
    } else {
        None
    }
}

/// A chroot is empty, or a valid path other than the root.
pub open spec fn valid_chroot(chroot: Seq<char>) -> bool {
    chroot.len() == 0 || (valid_path(chroot) && chroot.len() > 1)
}

/// Prepends the chroot to an outgoing path.
pub fn with_chroot(chroot: &str, path: &str) -> (r: String)
    ensures
        r@ == chrooted(chroot@, path@),
{
    let cn = chroot.unicode_len();
    let pn = path.unicode_len();
    if cn > 0 && pn == 1 && path.get_char(0) == '/' {
        proof {
            assert(path@ =~= seq!['/']);
        }
        return chroot.to_string();
    }
    proof {
        if cn > 0 && path@ == seq!['/'] {
            assert(path@[0] == '/');
        }
    }
    chroot.to_string().concat(path)
}

/// Strips the chroot from a path the server returned or an event carried.
pub fn strip_chroot(chroot: &str, path: &str) -> (r: Option<String>)
    ensures
        match unchrooted(chroot@, path@) {
            Some(p) => r matches Some(s) && s@ == p,
            None => r is None,
        },
{
    let cn = chroot.unicode_len();
    let pn = path.unicode_len();
    if cn == 0 {
        return Some(path.to_string());
    }
    if pn < cn {
        proof {
            assert(path@ != chroot@);
        }
        return None;
    }
    let mut i: usize = 0;
    while i < cn
        invariant
            cn == chroot@.len(),
            pn == path@.len(),
            cn <= pn,
            i <= cn,
            forall|k: int| 0 <= k < i ==> path@[k] == chroot@[k],
        decreases cn - i,
    {
        if path.get_char(i) != chroot.get_char(i) {
            proof {
                assert(path@.subrange(0, cn as int)[i as int] != chroot@[i as int]);
                assert(path@ != chroot@);
            }
            return None;
        }
        i = i + 1;
    }
    assert(path@.subrange(0, cn as int) =~= chroot@);
    if pn == cn {
        assert(path@ =~= chroot@);
        let root = "/".to_string();
        proof {
            reveal_strlit("/");
            assert(root@ =~= seq!['/']);
        }
        return Some(root);
    }
    if path.get_char(cn) != '/' {
        return None;
    }
    let rest = path.substring_char(cn, pn);
    Some(rest.to_string())
}

/// Chroot round trip: under a valid chroot, a valid path sent on the wire and
/// read back (as in an event on it) is the caller's path again.
pub proof fn lemma_chroot_round_trip(chroot: Seq<char>, path: Seq<char>)
    requires
        valid_chroot(chroot),
        valid_path(path),
    ensures
        unchrooted(chroot, chrooted(chroot, path)) == Some(path),
{
    if chroot.len() > 0 {
        let w = chrooted(chroot, path);
        if path == seq!['/'] {
        } else {
            assert(w == chroot + path);
            assert(w.subrange(0, chroot.len() as int) =~= chroot);
            assert(w[chroot.len() as int] == path[0]);
            assert(w.len() > chroot.len());
            assert(w.subrange(chroot.len() as int, w.len() as int) =~= path);
        }
    } else {
        assert(chroot + path =~= path);
    }
}

} // verus!
