use vstd::prelude::*;

verus! {

/// Subscribers to session-state changes, in subscription order, each under the
/// handle that its subscription returned.
pub struct Listeners {
    handles: Vec<u64>,
    next: u64,
}

/// Handles of `s` are strictly increasing and below `next`.
pub open spec fn handles_ordered(s: Seq<u64>, next: int) -> bool {
    &&& forall|i: int, j: int| 0 <= i < j < s.len() ==> #[trigger] s[i] < #[trigger] s[j]
    &&& forall|i: int| 0 <= i < s.len() ==> #[trigger] s[i] < next
}

impl View for Listeners {
    type V = Seq<u64>;

    closed spec fn view(&self) -> Seq<u64> {
        self.handles@
    }
}

impl Listeners {
    /// Handles are distinct, in subscription order, and never reused.
    pub closed spec fn wf(&self) -> bool {
        handles_ordered(self.handles@, self.next as int)
    }

    /// The handle the next subscription gets.
    pub closed spec fn next_handle(&self) -> u64 {
        self.next
    }

    /// No subscriber.
    pub fn new() -> (r: Self)
        ensures
            r.wf(),
            r@ == Seq::<u64>::empty(),
    {
        Listeners { handles: Vec::new(), next: 0 }
    }

    /// Adds a subscriber, returning its handle; `None` once handles are spent.
    pub fn subscribe(&mut self) -> (r: Option<u64>)
        requires
            old(self).wf(),
        ensures
            final(self).wf(),
            r is None <==> old(self).next_handle() == u64::MAX,
            r is None ==> final(self)@ == old(self)@,
            r matches Some(h) ==> h == old(self).next_handle() && final(self)@ == old(self)@.push(h),
    {
        if self.next == u64::MAX {
            return None;
        }
        let h = self.next;
        self.handles.push(h);
        self.next = self.next + 1;
        Some(h)
    }

    /// Releases a subscription: its handle no longer receives state changes;
    /// the others keep their order.
    pub fn unsubscribe(&mut self, h: u64)
        requires
            old(self).wf(),
        ensures
            final(self).wf(),
            final(self)@ == old(self)@.filter(|x: u64| x != h),
            !final(self)@.contains(h),
    {
        broadcast use vstd::seq_lib::group_filter_ensures;

        let ghost s = self.handles@;
        let mut kept: Vec<u64> = Vec::new();
        let mut i: usize = 0;
        while i < self.handles.len()
            invariant
                s == self.handles@,
                handles_ordered(s, self.next as int),
                i <= s.len(),
                kept@ == s.subrange(0, i as int).filter(|x: u64| x != h),
            decreases s.len() - i,
        {
            let x = self.handles[i];
            proof {
                reveal(Seq::filter);
                let cur = s.subrange(0, i + 1);
                assert(cur.drop_last() =~= s.subrange(0, i as int));
            }
            if x != h {
                kept.push(x);
            }
            i = i + 1;
        }
        proof {
            assert(s.subrange(0, s.len() as int) =~= s);
            let f = s.filter(|x: u64| x != h);
            assert forall|a: int, b: int| 0 <= a < b < f.len() implies #[trigger] f[a] < #[trigger] f[b] by {
                lemma_filter_keeps_order(s, h, a, b, self.next as int);
            }
            assert forall|a: int| 0 <= a < f.len() implies #[trigger] f[a] < self.next by {
                assert(f.contains(f[a]));
                s.lemma_filter_contains_rev(|x: u64| x != h, f[a]);
            }
            if f.contains(h) {
                let k = choose|k: int| 0 <= k < f.len() && f[k] == h;
                s.lemma_filter_pred(|x: u64| x != h, k);
            }
        }
        self.handles = kept;
    }

    /// The handles to notify of a state change, in subscription order.
    pub fn recipients(&self) -> (r: Vec<u64>)
        ensures
            r@ == self@,
    {
        self.handles.clone()
    }
}

proof fn lemma_filter_keeps_order(s: Seq<u64>, h: u64, a: int, b: int, next: int)
    requires
        handles_ordered(s, next),
        0 <= a < b < s.filter(|x: u64| x != h).len(),
    ensures
        s.filter(|x: u64| x != h)[a] < s.filter(|x: u64| x != h)[b],
    decreases s.len(),
{
    reveal(Seq::filter);
    broadcast use vstd::seq_lib::group_filter_ensures;

    let f = s.filter(|x: u64| x != h);
    let t = s.drop_last();
    let g = t.filter(|x: u64| x != h);
    assert(handles_ordered(t, next));
    if s.last() != h {
        assert(f == g.push(s.last()));
        if b < g.len() {
            lemma_filter_keeps_order(t, h, a, b, next);
        } else {
            assert(g.contains(g[a]));
            t.lemma_filter_contains_rev(|x: u64| x != h, g[a]);
            let k = choose|k: int| 0 <= k < t.len() && t[k] == g[a];
            assert(s[k] == t[k]);
            assert(s[k] < s[s.len() - 1]);
        }
    } else {
        assert(f == g);
        lemma_filter_keeps_order(t, h, a, b, next);
    }
}

} // verus!
