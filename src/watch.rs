use vstd::prelude::*;
use crate::codec::{read_i32, read_i32_spec};
use crate::paths::{strip_chroot, unchrooted};
use crate::reply::{read_ustring, ustring_at};

verus! {

broadcast use vstd::string::to_string_from_display_ensures_for_str;

/// What a watch waits for.
#[derive(Debug, Clone, Copy, PartialEq, Eq, Structural)]
pub enum WatchKind {
    Exists,
    Data,
    Children,
}

/// Kind of a watched event.
#[derive(Debug, Clone, Copy, PartialEq, Eq, Structural)]
pub enum EventType {
    /// A change of session state, for the default watcher only.
    SessionEvent,
    NodeCreated,
    NodeDeleted,
    NodeDataChanged,
    NodeChildrenChanged,
}

/// Whether an event of type `ev` fires watches of kind `k`.
pub open spec fn fires_kind(ev: EventType, k: WatchKind) -> bool {
    match ev {
        EventType::SessionEvent => false,
        EventType::NodeCreated => k != WatchKind::Children,
        EventType::NodeDeleted => true,
        EventType::NodeDataChanged => k != WatchKind::Children,
        EventType::NodeChildrenChanged => k == WatchKind::Children,
    }
}

fn fires_kind_exec(ev: EventType, k: WatchKind) -> (r: bool)
    ensures
        r == fires_kind(ev, k),
{
    match ev {
        EventType::SessionEvent => false,
        EventType::NodeCreated => k != WatchKind::Children,
        EventType::NodeDeleted => true,
        EventType::NodeDataChanged => k != WatchKind::Children,
        EventType::NodeChildrenChanged => k == WatchKind::Children,
    }
}

/// Whether a reply with error code `err` to a request that asked for a watch of
/// kind `k` leaves that watch registered: on success, and for an exists watch
/// also when the node is missing.
pub open spec fn registers_watch(k: WatchKind, err: i32) -> bool {
    err == 0 || (k == WatchKind::Exists && err == -101)
}

/// Decides whether a reply leaves the requested watch registered.
pub fn should_register(k: WatchKind, err: i32) -> (r: bool)
    ensures
        r == registers_watch(k, err),
{
    err == 0 || (k == WatchKind::Exists && err == -101)
}

/// A registration: path, kind, and the watcher to call.
pub type WatchView = (Seq<char>, WatchKind, u64);

/// One registration of the registry.
#[derive(Debug)]
pub struct WatchEntry {
    pub path: String,
    pub kind: WatchKind,
    pub watcher: u64,
}

/// The registration an entry stands for.
pub open spec fn entry_view(e: WatchEntry) -> WatchView {
    (e.path@, e.kind, e.watcher)
}

/// An event of type `ev` on `path` fires registration `w`.
pub open spec fn fires(ev: EventType, path: Seq<char>, w: WatchView) -> bool {
    w.0 == path && fires_kind(ev, w.1)
}

/// The registrations of kind `k` that an event of type `ev` on `path` fires.
pub open spec fn fired_of_kind(s: Seq<WatchView>, ev: EventType, path: Seq<char>, k: WatchKind) -> Seq<WatchView> {
    s.filter(fired_kind_pred(ev, path, k))
}

/// Registration `w` is of kind `k` and fired by an event of type `ev` on `path`.
pub open spec fn fired_kind_pred(ev: EventType, path: Seq<char>, k: WatchKind) -> spec_fn(WatchView) -> bool {
    |w: WatchView| w.1 == k && fires(ev, path, w)
}

/// Registration `w` survives an event of type `ev` on `path`.
pub open spec fn kept_pred(ev: EventType, path: Seq<char>) -> spec_fn(WatchView) -> bool {
    |w: WatchView| !fires(ev, path, w)
}

/// The watchers that an event of type `ev` on `path` calls, in order: exists
/// watches, then data watches, then child watches, each in registration order.
pub open spec fn fired_watchers(s: Seq<WatchView>, ev: EventType, path: Seq<char>) -> Seq<u64> {
    (fired_of_kind(s, ev, path, WatchKind::Exists) + fired_of_kind(s, ev, path, WatchKind::Data)
        + fired_of_kind(s, ev, path, WatchKind::Children)).map_values(|w: WatchView| w.2)
}

/// The registrations left after an event of type `ev` on `path`.
pub open spec fn remaining(s: Seq<WatchView>, ev: EventType, path: Seq<char>) -> Seq<WatchView> {
    s.filter(kept_pred(ev, path))
}

proof fn lemma_filter_step(s: Seq<WatchView>, i: int, pred: spec_fn(WatchView) -> bool)
    requires
        0 <= i < s.len(),
    ensures
        s.subrange(0, i + 1).filter(pred) == if pred(s[i]) {
            s.subrange(0, i).filter(pred).push(s[i])
        } else {
            s.subrange(0, i).filter(pred)
        },
{
    reveal(Seq::filter);
    let cur = s.subrange(0, i + 1);
    assert(cur.drop_last() =~= s.subrange(0, i));
    assert(cur.last() == s[i]);
}

/// Pending watches, keyed by path and kind, in registration order.
pub struct WatchRegistry {
    entries: Vec<WatchEntry>,
}

impl View for WatchRegistry {
    type V = Seq<WatchView>;

    closed spec fn view(&self) -> Seq<WatchView> {
        self.entries@.map_values(|e: WatchEntry| entry_view(e))
    }
}

impl WatchRegistry {
    /// An empty registry.
    pub fn new() -> (r: Self)
        ensures
            r@ == Seq::<WatchView>::empty(),
    {
        let r = WatchRegistry { entries: Vec::new() };
        proof {
            assert(r@ =~= Seq::<WatchView>::empty());
        }
        r
    }

    /// Number of pending registrations.
    pub fn len(&self) -> (r: usize)
        ensures
            r == self@.len(),
    {
        self.entries.len()
    }

    /// Registers `watcher` for the next event of kind `kind` on `path`.
    pub fn register(&mut self, path: &str, kind: WatchKind, watcher: u64)
        ensures
            final(self)@ == old(self)@.push((path@, kind, watcher)),
    {
        let e = WatchEntry { path: path.to_string(), kind, watcher };
        self.entries.push(e);
        proof {
            assert(final(self)@ =~= old(self)@.push((path@, kind, watcher)));
        }
    }

    fn collect_kind(&self, ev: EventType, path: &String, k: WatchKind, out: &mut Vec<u64>)
        ensures
            final(out)@ == old(out)@ + fired_of_kind(self@, ev, path@, k).map_values(
                |w: WatchView| w.2,
            ),
    {
        let ghost s = self@;
        let ghost start = out@;
        let fire_k = fires_kind_exec(ev, k);
        let mut i: usize = 0;
        while i < self.entries.len()
            invariant
                s == self@,
                fire_k == fires_kind(ev, k),
                i <= s.len(),
                out@ == start + fired_of_kind(s.subrange(0, i as int), ev, path@, k).map_values(
                    |w: WatchView| w.2,
                ),
            decreases s.len() - i,
        {
            let e = &self.entries[i];
            let same_path = e.path == *path;
            let hit = e.kind == k && fire_k && same_path;
            if hit {
                out.push(e.watcher);
            }
            proof {
                let pre = s.subrange(0, i as int);
                let cur = s.subrange(0, i + 1);
                lemma_filter_step(s, i as int, fired_kind_pred(ev, path@, k));
                assert(cur.last() == s[i as int]);
                assert(s[i as int] == entry_view(self.entries@[i as int]));
                if hit {
                    assert(fired_of_kind(cur, ev, path@, k) == fired_of_kind(pre, ev, path@, k).push(
                        s[i as int],
                    ));
                    assert(out@ =~= start + fired_of_kind(cur, ev, path@, k).map_values(
                        |w: WatchView| w.2,
                    ));
                } else {
                    assert(same_path == (e.path@ == path@));
                    assert(!(cur.last().1 == k && fires(ev, path@, cur.last())));
                    assert(fired_of_kind(cur, ev, path@, k) == fired_of_kind(pre, ev, path@, k));
                }
            }
            i = i + 1;
        }
        proof {
            assert(s.subrange(0, s.len() as int) =~= s);
        }
    }

    /// Delivers an event of type `ev` on `path`: returns the watchers it calls,
    /// exists watches first, then data, then child watches, and removes their
    /// registrations, so that none is called twice.
    pub fn fire(&mut self, ev: EventType, path: &str) -> (r: Vec<u64>)
        ensures
            r@ == fired_watchers(old(self)@, ev, path@),
            final(self)@ == remaining(old(self)@, ev, path@),
    {
        let ghost s = self@;
        let p = path.to_string();
        let mut out: Vec<u64> = Vec::new();
        self.collect_kind(ev, &p, WatchKind::Exists, &mut out);
        self.collect_kind(ev, &p, WatchKind::Data, &mut out);
        self.collect_kind(ev, &p, WatchKind::Children, &mut out);
        proof {
            let a = fired_of_kind(s, ev, path@, WatchKind::Exists);
            let b = fired_of_kind(s, ev, path@, WatchKind::Data);
            let c = fired_of_kind(s, ev, path@, WatchKind::Children);
            let f = |w: WatchView| w.2;
            assert((a + b + c).map_values(f) =~= a.map_values(f) + b.map_values(f) + c.map_values(f));
            assert(out@ =~= fired_watchers(s, ev, path@));
        }
        let mut rest: Vec<WatchEntry> = Vec::new();
        std::mem::swap(&mut rest, &mut self.entries);
        let ghost all = rest@;
        let total = rest.len();
        let mut kept: Vec<WatchEntry> = Vec::new();
        let mut taken: usize = 0;
        while rest.len() > 0
            invariant
                all.map_values(|e: WatchEntry| entry_view(e)) == s,
                taken + rest@.len() == all.len(),
                total == all.len(),
                p@ == path@,
                rest@ == all.subrange(taken as int, all.len() as int),
                kept@.map_values(|e: WatchEntry| entry_view(e)) == remaining(
                    s.subrange(0, taken as int),
                    ev,
                    path@,
                ),
            decreases rest@.len(),
        {
            let e = rest.remove(0);
            let same_path = e.path == p;
            let hit = fires_kind_exec(ev, e.kind) && same_path;
            proof {
                let pre = s.subrange(0, taken as int);
                let cur = s.subrange(0, taken + 1);
                lemma_filter_step(s, taken as int, kept_pred(ev, path@));
                assert(s[taken as int] == entry_view(all[taken as int]));
                assert(all[taken as int] == e);
                assert(cur.last() == entry_view(e));
                assert(same_path == (e.path@ == p@));
                assert(p@ == path@);
                assert(hit == fires(ev, path@, entry_view(e)));
            }
            if !hit {
                let ghost k0 = kept@;
                kept.push(e);
                proof {
                    assert(kept@.map_values(|e: WatchEntry| entry_view(e)) =~= k0.map_values(
                        |e: WatchEntry| entry_view(e),
                    ).push(entry_view(e)));
                }
            }
            taken = taken + 1;
            proof {
                assert(rest@ =~= all.subrange(taken as int, all.len() as int));
            }
        }
        proof {
            assert(s.subrange(0, s.len() as int) =~= s);
        }
        self.entries = kept;
        out
    }
}

proof fn lemma_partition_count(s: Seq<WatchView>, ev: EventType, path: Seq<char>)
    ensures
        fired_of_kind(s, ev, path, WatchKind::Exists).len() + fired_of_kind(s, ev, path, WatchKind::Data).len()
            + fired_of_kind(s, ev, path, WatchKind::Children).len() + remaining(s, ev, path).len()
            == s.len(),
    decreases s.len(),
{
    reveal(Seq::filter);
    if s.len() > 0 {
        lemma_partition_count(s.drop_last(), ev, path);
    }
}

/// Fire-once: after an event, no registration that it fired is left, and every
/// registration was either called once or kept, so none can be called again
/// by a later event.
pub proof fn lemma_fire_once(s: Seq<WatchView>, ev: EventType, path: Seq<char>)
    ensures
        forall|i: int|
            0 <= i < remaining(s, ev, path).len() ==> !fires(ev, path, #[trigger] remaining(s, ev, path)[i]),
        fired_watchers(s, ev, path).len() + remaining(s, ev, path).len() == s.len(),
{
    broadcast use vstd::seq_lib::group_filter_ensures;

    lemma_partition_count(s, ev, path);
    assert forall|i: int| 0 <= i < remaining(s, ev, path).len() implies !fires(
        ev,
        path,
        #[trigger] remaining(s, ev, path)[i],
    ) by {
        s.lemma_filter_pred(kept_pred(ev, path), i);
    }
}

/// Registration `w` is of kind `k`.
pub open spec fn of_kind_pred(k: WatchKind) -> spec_fn(WatchView) -> bool {
    |w: WatchView| w.1 == k
}

/// The paths of the pending registrations of kind `k`, in registration order:
/// what a set-watches packet lists for that kind after a reconnect.
pub open spec fn replay_paths(s: Seq<WatchView>, k: WatchKind) -> Seq<Seq<char>> {
    s.filter(of_kind_pred(k)).map_values(|w: WatchView| w.0)
}

impl WatchRegistry {
    /// The paths to list for kind `k` in the set-watches packet sent before user
    /// traffic resumes on a new connection.
    pub fn replay(&self, k: WatchKind) -> (r: Vec<String>)
        ensures
            r@.len() == replay_paths(self@, k).len(),
            forall|i: int| 0 <= i < r@.len() ==> (#[trigger] r@[i])@ == replay_paths(self@, k)[i],
    {
        let ghost s = self@;
        let mut out: Vec<String> = Vec::new();
        let mut i: usize = 0;
        while i < self.entries.len()
            invariant
                s == self@,
                i <= s.len(),
                out@.len() == replay_paths(s.subrange(0, i as int), k).len(),
                forall|j: int| 0 <= j < out@.len() ==> (#[trigger] out@[j])@ == replay_paths(
                    s.subrange(0, i as int),
                    k,
                )[j],
            decreases s.len() - i,
        {
            let e = &self.entries[i];
            proof {
                lemma_filter_step(s, i as int, of_kind_pred(k));
                assert(s[i as int] == entry_view(self.entries@[i as int]));
            }
            if e.kind == k {
                out.push(e.path.clone());
            }
            i = i + 1;
        }
        proof {
            assert(s.subrange(0, s.len() as int) =~= s);
        }
        out
    }
}

/// No watch is lost across a reconnect: every pending registration's path is
/// listed for its kind in the set-watches packet.
pub proof fn lemma_replay_complete(s: Seq<WatchView>, i: int)
    requires
        0 <= i < s.len(),
    ensures
        replay_paths(s, s[i].1).contains(s[i].0),
{
    broadcast use vstd::seq_lib::group_filter_ensures;

    let k = s[i].1;
    s.lemma_filter_contains(of_kind_pred(k), i);
    let f = s.filter(of_kind_pred(k));
    let j = choose|j: int| 0 <= j < f.len() && f[j] == s[i];
    assert(replay_paths(s, k)[j] == s[i].0);
}

/// The event type a notification's type code stands for.
pub open spec fn event_type_of(code: i32) -> Option<EventType> {
    if code == -1 {
        Some(EventType::SessionEvent)
    } else if code == 1 {
        Some(EventType::NodeCreated)
    } else if code == 2 {
        Some(EventType::NodeDeleted)
    } else if code == 3 {
        Some(EventType::NodeDataChanged)
    } else if code == 4 {
        Some(EventType::NodeChildrenChanged)
    } else {
        None
    }
}

fn event_type_from_code(code: i32) -> (r: Option<EventType>)
    ensures
        r == event_type_of(code),
{
    if code == -1 {
        Some(EventType::SessionEvent)
    } else if code == 1 {
        Some(EventType::NodeCreated)
    } else if code == 2 {
        Some(EventType::NodeDeleted)
    } else if code == 3 {
        Some(EventType::NodeDataChanged)
    } else if code == 4 {
        Some(EventType::NodeChildrenChanged)
    } else {
        None
    }
}

/// A decoded notification: event type, session state code, and server path.
#[derive(Debug)]
pub struct WatchedEvent {
    pub event_type: EventType,
    pub state: i32,
    pub path: String,
}

/// The notification encoded at `pos` of `b`: type code, state code, path.
pub open spec fn event_at(b: Seq<u8>, pos: int) -> Option<(EventType, i32, Seq<char>)> {
    match read_i32_spec(b, pos) {
        Some((t, at_state)) => match read_i32_spec(b, at_state as int) {
            Some((st, at_path)) => match (event_type_of(t), ustring_at(b, at_path as int)) {
                (Some(ev), Some((path, _))) => Some((ev, st, path)),
                _ => None,
            },
            None => None,
        },
        None => None,
    }
}

/// Decodes the body of a notification frame at `pos`; `None` when malformed.
pub fn decode_watched_event(buf: &[u8], pos: usize) -> (r: Option<WatchedEvent>)
    ensures
        match event_at(buf@, pos as int) {
            Some((ev, st, path)) => r matches Some(e) && e.event_type == ev && e.state == st
                && e.path@ == path,
            None => r is None,
        },
{
    let (t, at_state) = match read_i32(buf, pos) {
        Some(x) => x,
        None => return None,
    };
    let (state, at_path) = match read_i32(buf, at_state) {
        Some(x) => x,
        None => return None,
    };
    let event_type = match event_type_from_code(t) {
        Some(e) => e,
        None => return None,
    };
    match read_ustring(buf, at_path) {
        Some((path, _)) => Some(WatchedEvent { event_type, state, path }),
        None => None,
    }
}

impl WatchRegistry {
    /// Delivers an event on server path `server_path` under `chroot`: the path
    /// is stripped of the chroot and the matching watches fire; an event on a
    /// path outside the chroot fires nothing.
    pub fn dispatch(&mut self, chroot: &str, ev: EventType, server_path: &str) -> (r: Vec<u64>)
        ensures
            match unchrooted(chroot@, server_path@) {
                Some(p) => r@ == fired_watchers(old(self)@, ev, p) && final(self)@ == remaining(
                    old(self)@,
                    ev,
                    p,
                ),
                None => r@ == Seq::<u64>::empty() && final(self)@ == old(self)@,
            },
    {
        match strip_chroot(chroot, server_path) {
            Some(p) => self.fire(ev, p.as_str()),
            None => Vec::new(),
        }
    }
}

} // verus!
