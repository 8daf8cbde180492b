use vstd::prelude::*;

verus! {

/// Reserved identifier of a notification frame.
pub const XID_NOTIFICATION: i32 = -1;
/// Reserved identifier of a ping.
pub const XID_PING: i32 = -2;
/// Reserved identifier of an authentication packet.
pub const XID_AUTH: i32 = -4;
/// Reserved identifier of a set-watches packet.
pub const XID_SET_WATCHES: i32 = -8;

/// An identifier set aside for frames that are not replies to requests.
pub open spec fn is_reserved_xid(x: i32) -> bool {
    x == XID_NOTIFICATION || x == XID_PING || x == XID_AUTH || x == XID_SET_WATCHES
}

/// Hands out the request identifiers of one session.
pub struct XidCounter {
    next: i32,
}

impl XidCounter {
    /// The identifier the next allocation returns.
    pub closed spec fn next_xid(&self) -> int {
        self.next as int
    }

    /// The counter never goes below the first identifier.
    pub closed spec fn wf(&self) -> bool {
        self.next >= 1
    }

    /// A counter for a new session; its first identifier is `1`.
    pub fn new() -> (r: Self)
        ensures
            r.wf(),
            r.next_xid() == 1,
    {
        XidCounter { next: 1 }
    }

    /// The next identifier, or `None` once the identifiers of the session are spent.
    pub fn allocate(&mut self) -> (r: Option<i32>)
        requires
            old(self).wf(),
        ensures
            final(self).wf(),
            r is None <==> old(self).next_xid() == i32::MAX,
            r is None ==> final(self).next_xid() == old(self).next_xid(),
            r matches Some(x) ==> allocated(*old(self), *final(self), x),
    {
        if self.next == i32::MAX {
            None
        } else {
            let x = self.next;
            self.next = self.next + 1;
            Some(x)
        }
    }
}

/// One allocation took `before` to `after` and handed out `x`.
pub open spec fn allocated(before: XidCounter, after: XidCounter, x: i32) -> bool {
    &&& x == before.next_xid()
    &&& after.next_xid() == before.next_xid() + 1
    &&& after.wf()
    &&& x >= 1
}

/// The identifiers handed out by a run of allocations, each taking `states[i]`
/// to `states[i + 1]` and handing out `xids[i]`, are positive, never reserved,
/// and strictly increasing.
pub proof fn lemma_xids_strictly_increase(states: Seq<XidCounter>, xids: Seq<i32>)
    requires
        states.len() == xids.len() + 1,
        forall|i: int| 0 <= i < xids.len() ==> allocated(states[i], states[i + 1], #[trigger] xids[i]),
    ensures
        forall|i: int| 0 <= i < xids.len() ==> #[trigger] xids[i] >= 1 && !is_reserved_xid(xids[i]),
        forall|i: int, j: int| 0 <= i < j < xids.len() ==> #[trigger] xids[i] < #[trigger] xids[j],
    decreases xids.len(),
{
    if xids.len() > 0 {
        let n = xids.len() - 1;
        let s2 = states.drop_last();
        let x2 = xids.drop_last();
        assert forall|i: int| 0 <= i < x2.len() implies allocated(s2[i], s2[i + 1], #[trigger] x2[i]) by {
            assert(allocated(states[i], states[i + 1], xids[i]));
        }
        lemma_xids_strictly_increase(s2, x2);
        assert forall|i: int| 0 <= i < n implies #[trigger] xids[i] < states[n].next_xid() by {
            assert(x2[i] == xids[i]);
            lemma_next_above(states, xids, i, n);
        }
        assert(allocated(states[n], states[n + 1], xids[n]));
        assert forall|i: int, j: int| 0 <= i < j < xids.len() implies #[trigger] xids[i] < #[trigger] xids[j] by {
            if j < n {
                assert(x2[i] == xids[i] && x2[j] == xids[j]);
            } else {
                assert(xids[i] < states[n].next_xid());
            }
        }
    }
}

proof fn lemma_next_above(states: Seq<XidCounter>, xids: Seq<i32>, i: int, k: int)
    requires
        states.len() == xids.len() + 1,
        forall|m: int| 0 <= m < xids.len() ==> allocated(states[m], states[m + 1], #[trigger] xids[m]),
        0 <= i < k <= xids.len(),
    ensures
        xids[i] < states[k].next_xid(),
    decreases k - i,
{
    assert(allocated(states[k - 1], states[k], xids[k - 1]));
    if i < k - 1 {
        lemma_next_above(states, xids, i, k - 1);
    }
}

} // verus!

verus! {

/// A request written to the socket and awaiting its reply.
#[derive(Debug, Clone, Copy, PartialEq, Eq, Structural)]
pub struct Pending {
    pub xid: i32,
    pub opcode: i32,
}

/// What an inbound frame is, by its identifier.
#[derive(Debug, Clone, Copy, PartialEq, Eq, Structural)]
pub enum Inbound {
    /// A watch notification, for the event demultiplexer.
    Notification,
    /// The answer to a ping.
    PingAck,
    /// The answer to an authentication packet; `failed` when the server refused it.
    AuthAck { failed: bool },
    /// The answer to a set-watches packet.
    SetWatchesAck,
    /// The reply to the oldest in-flight request, which it completes.
    Reply(Pending),
    /// A reply that is not for the oldest in-flight request: a protocol violation.
    Mismatch,
}

/// Identifiers of the queue are request identifiers, strictly increasing.
pub open spec fn queue_ordered(q: Seq<Pending>) -> bool {
    &&& forall|i: int| 0 <= i < q.len() ==> (#[trigger] q[i]).xid >= 1
    &&& forall|i: int, j: int| 0 <= i < j < q.len() ==> (#[trigger] q[i]).xid < (#[trigger] q[j]).xid
}

/// The request that a reply with identifier `xid` completes: the oldest one,
/// and only if the identifiers agree.
pub open spec fn completed_by(q: Seq<Pending>, xid: i32) -> Option<Pending> {
    if q.len() > 0 && q[0].xid == xid {
        Some(q[0])
    } else {
        None
    }
}

/// The in-flight queue: requests written to the socket, oldest first.
pub struct InFlight {
    entries: Vec<Pending>,
}

impl View for InFlight {
    type V = Seq<Pending>;

    closed spec fn view(&self) -> Seq<Pending> {
        self.entries@
    }
}

impl InFlight {
    /// An empty queue.
    pub fn new() -> (r: Self)
        ensures
            r@ == Seq::<Pending>::empty(),
    {
        InFlight { entries: Vec::new() }
    }

    /// Number of requests awaiting a reply.
    pub fn len(&self) -> (r: usize)
        ensures
            r == self@.len(),
    {
        self.entries.len()
    }

    /// Records that `p` was written to the socket. Refused (and `false`) when
    /// its identifier is not a request identifier above every queued one.
    pub fn send(&mut self, p: Pending) -> (r: bool)
        requires
            queue_ordered(old(self)@),
        ensures
            queue_ordered(final(self)@),
            r <==> p.xid >= 1 && (old(self)@.len() == 0 || old(self)@.last().xid < p.xid),
            r ==> final(self)@ == old(self)@.push(p),
            !r ==> final(self)@ == old(self)@,
    {
        let n = self.entries.len();
        if p.xid < 1 || (n > 0 && self.entries[n - 1].xid >= p.xid) {
            return false;
        }
        self.entries.push(p);
        true
    }

    /// On a lost connection, puts every in-flight request back ahead of the
    /// unsent ones, oldest first, leaving nothing in flight.
    pub fn requeue(&mut self, unsent: &mut Vec<Pending>)
        ensures
            final(self)@ == Seq::<Pending>::empty(),
            final(unsent)@ == old(self)@ + old(unsent)@,
    {
        let mut moved: Vec<Pending> = Vec::new();
        std::mem::swap(&mut moved, &mut self.entries);
        moved.append(unsent);
        std::mem::swap(&mut moved, unsent);
    }

    /// Routes an inbound frame with identifier `xid` and error code `err`.
    /// Reserved identifiers leave the queue alone; any other completes the
    /// oldest request when it carries its identifier, and is a mismatch otherwise.
    pub fn receive(&mut self, xid: i32, err: i32) -> (r: Inbound)
        requires
            queue_ordered(old(self)@),
        ensures
            queue_ordered(final(self)@),
            xid == XID_NOTIFICATION ==> r == Inbound::Notification,
            xid == XID_PING ==> r == Inbound::PingAck,
            xid == XID_AUTH ==> r == (Inbound::AuthAck { failed: err != 0 }),
            xid == XID_SET_WATCHES ==> r == Inbound::SetWatchesAck,
            !is_reserved_xid(xid) ==> match completed_by(old(self)@, xid) {
                Some(p) => r == Inbound::Reply(p) && final(self)@ == old(self)@.drop_first(),
                None => r == Inbound::Mismatch && final(self)@ == old(self)@,
            },
            is_reserved_xid(xid) ==> final(self)@ == old(self)@,
    {
        if xid == XID_NOTIFICATION {
            Inbound::Notification
        } else if xid == XID_PING {
            Inbound::PingAck
        } else if xid == XID_AUTH {
            Inbound::AuthAck { failed: err != 0 }
        } else if xid == XID_SET_WATCHES {
            Inbound::SetWatchesAck
        } else if self.entries.len() > 0 && self.entries[0].xid == xid {
            let p = self.entries.remove(0);
            proof {
                assert(self.entries@ =~= old(self).entries@.drop_first());
                assert forall|i: int, j: int| 0 <= i < j < self.entries@.len() implies
                    (#[trigger] self.entries@[i]).xid < (#[trigger] self.entries@[j]).xid by {
                    assert(old(self).entries@[i + 1].xid < old(self).entries@[j + 1].xid);
                }
                assert forall|i: int| 0 <= i < self.entries@.len() implies
                    (#[trigger] self.entries@[i]).xid >= 1 by {
                    assert(old(self).entries@[i + 1].xid >= 1);
                }
            }
            Inbound::Reply(p)
        } else {
            Inbound::Mismatch
        }
    }
}

/// Replies complete requests in the order they were sent: while an older
/// request `q[i]` is still in flight, no reply can complete a younger `q[j]`.
pub proof fn lemma_fifo_completion(q: Seq<Pending>, i: int, j: int, xid: i32)
    requires
        queue_ordered(q),
        0 <= i < j < q.len(),
    ensures
        completed_by(q, xid) != Some(q[j]),
{
    if i > 0 {
        assert(q[0].xid < q[i].xid);
    }
    assert(q[i].xid < q[j].xid);
}

/// Sending `a` and then `b` queues `a` ahead of `b`, so `a` completes first.
pub proof fn lemma_send_order(q: Seq<Pending>, a: Pending, b: Pending)
    requires
        queue_ordered(q.push(a).push(b)),
    ensures
        q.push(a).push(b)[q.len() as int] == a,
        q.push(a).push(b)[q.len() as int + 1] == b,
        forall|xid: i32| completed_by(q.push(a).push(b), xid) != Some(b),
{
    let s = q.push(a).push(b);
    assert forall|xid: i32| completed_by(s, xid) != Some(b) by {
        lemma_fifo_completion(s, q.len() as int, q.len() as int + 1, xid);
    }
}

/// Every identifier of `q` is below `bound`.
pub open spec fn all_below(q: Seq<Pending>, bound: int) -> bool {
    forall|i: int| 0 <= i < q.len() ==> (#[trigger] q[i]).xid < bound
}

/// The requests of a session: identifiers, the requests not yet written, and
/// those in flight.
pub struct Outbox {
    xids: XidCounter,
    unsent: Vec<Pending>,
    in_flight: InFlight,
}

impl Outbox {
    /// The requests waiting to be written, oldest first.
    pub closed spec fn unsent(&self) -> Seq<Pending> {
        self.unsent@
    }

    /// The requests written and awaiting replies, oldest first.
    pub closed spec fn in_flight(&self) -> Seq<Pending> {
        self.in_flight@
    }

    /// In flight, then unsent: every request of the session in submission order,
    /// identifiers strictly increasing and below the next one to hand out.
    pub closed spec fn wf(&self) -> bool {
        &&& self.xids.wf()
        &&& queue_ordered(self.in_flight@ + self.unsent@)
        &&& all_below(self.in_flight@ + self.unsent@, self.xids.next_xid())
    }

    /// A session with no request yet.
    pub fn new() -> (r: Self)
        ensures
            r.wf(),
            r.unsent() == Seq::<Pending>::empty(),
            r.in_flight() == Seq::<Pending>::empty(),
    {
        let r = Outbox { xids: XidCounter::new(), unsent: Vec::new(), in_flight: InFlight::new() };
        proof {
            assert(r.in_flight@ + r.unsent@ =~= Seq::<Pending>::empty());
        }
        r
    }

    /// Takes a request of `opcode`: gives it the next identifier and queues it
    /// behind every earlier one. `None` once the identifiers are spent.
    pub fn submit(&mut self, opcode: i32) -> (r: Option<i32>)
        requires
            old(self).wf(),
        ensures
            final(self).wf(),
            final(self).in_flight() == old(self).in_flight(),
            r is None ==> final(self).unsent() == old(self).unsent(),
            r matches Some(x) ==> final(self).unsent() == old(self).unsent().push(
                Pending { xid: x, opcode },
            ),
    {
        let ghost all = self.in_flight@ + self.unsent@;
        match self.xids.allocate() {
            None => None,
            Some(x) => {
                let p = Pending { xid: x, opcode };
                self.unsent.push(p);
                proof {
                    assert(self.in_flight@ + self.unsent@ =~= all.push(p));
                }
                Some(x)
            },
        }
    }

    /// Writes every unsent request, oldest first: they join the in-flight
    /// queue in order and are returned for the socket.
    pub fn flush(&mut self) -> (r: Vec<Pending>)
        requires
            old(self).wf(),
        ensures
            final(self).wf(),
            r@ == old(self).unsent(),
            final(self).unsent() == Seq::<Pending>::empty(),
            final(self).in_flight() == old(self).in_flight() + old(self).unsent(),
    {
        let ghost all = self.in_flight@ + self.unsent@;
        let ghost bound = self.xids.next_xid();
        let mut taken: Vec<Pending> = Vec::new();
        std::mem::swap(&mut taken, &mut self.unsent);
        let ghost start = self.in_flight@;
        let mut i: usize = 0;
        while i < taken.len()
            invariant
                all == start + taken@,
                queue_ordered(all),
                all_below(all, bound),
                i <= taken@.len(),
                self.in_flight@ == start + taken@.subrange(0, i as int),
                self.unsent@ == Seq::<Pending>::empty(),
                self.xids.next_xid() == bound,
                self.xids.wf(),
            decreases taken@.len() - i,
        {
            let p = taken[i];
            proof {
                let q = self.in_flight@;
                assert(q =~= all.subrange(0, start.len() + i));
                assert forall|a: int, b: int| 0 <= a < b < q.len() implies (#[trigger] q[a]).xid
                    < (#[trigger] q[b]).xid by {
                    assert(q[a] == all[a] && q[b] == all[b]);
                }
                assert forall|a: int| 0 <= a < q.len() implies (#[trigger] q[a]).xid >= 1 by {
                    assert(q[a] == all[a]);
                }
                if self.in_flight@.len() > 0 {
                    assert(self.in_flight@.last() == all[start.len() + i - 1]);
                }
                assert(p == all[start.len() + i]);
            }
            let ok = self.in_flight.send(p);
            proof {
                assert(ok);
            }
            i = i + 1;
            proof {
                assert(self.in_flight@ =~= start + taken@.subrange(0, i as int));
            }
        }
        proof {
            assert(taken@.subrange(0, taken@.len() as int) =~= taken@);
            assert(self.in_flight@ + self.unsent@ =~= all);
        }
        taken
    }

    /// Routes an inbound frame through the in-flight queue.
    pub fn receive(&mut self, xid: i32, err: i32) -> (r: Inbound)
        requires
            old(self).wf(),
        ensures
            final(self).wf(),
            final(self).unsent() == old(self).unsent(),
            !is_reserved_xid(xid) ==> match completed_by(old(self).in_flight(), xid) {
                Some(p) => r == Inbound::Reply(p) && final(self).in_flight() == old(
                    self,
                ).in_flight().drop_first(),
                None => r == Inbound::Mismatch && final(self).in_flight() == old(self).in_flight(),
            },
            is_reserved_xid(xid) ==> final(self).in_flight() == old(self).in_flight(),
    {
        let ghost all = self.in_flight@ + self.unsent@;
        proof {
            assert forall|i: int, j: int| 0 <= i < j < self.in_flight@.len() implies
                (#[trigger] self.in_flight@[i]).xid < (#[trigger] self.in_flight@[j]).xid by {
                assert(all[i] == self.in_flight@[i] && all[j] == self.in_flight@[j]);
            }
            assert forall|i: int| 0 <= i < self.in_flight@.len() implies
                (#[trigger] self.in_flight@[i]).xid >= 1 by {
                assert(all[i] == self.in_flight@[i]);
            }
        }
        let r = self.in_flight.receive(xid, err);
        proof {
            if self.in_flight@ != old(self).in_flight@ {
                assert(self.in_flight@ + self.unsent@ =~= all.drop_first());
                assert forall|i: int, j: int| 0 <= i < j < all.len() - 1 implies
                    (#[trigger] all.drop_first()[i]).xid < (#[trigger] all.drop_first()[j]).xid by {
                    assert(all[i + 1].xid < all[j + 1].xid);
                }
                assert forall|i: int| 0 <= i < all.len() - 1 implies
                    (#[trigger] all.drop_first()[i]).xid >= 1 && all.drop_first()[i].xid
                        < self.xids.next_xid() by {
                    assert(all[i + 1].xid >= 1);
                }
            }
        }
        r
    }

    /// On a lost connection, every in-flight request goes back ahead of the
    /// unsent ones, in identifier order.
    pub fn connection_lost(&mut self)
        requires
            old(self).wf(),
        ensures
            final(self).wf(),
            final(self).in_flight() == Seq::<Pending>::empty(),
            final(self).unsent() == old(self).in_flight() + old(self).unsent(),
    {
        let ghost all = self.in_flight@ + self.unsent@;
        self.in_flight.requeue(&mut self.unsent);
        proof {
            assert(self.in_flight@ + self.unsent@ =~= all);
        }
    }
}

/// The requests of a session, in flight and then unsent, carry strictly
/// increasing request identifiers, none of them reserved, in submission order.
pub proof fn lemma_outbox_ordered(o: Outbox)
    requires
        o.wf(),
    ensures
        queue_ordered(o.in_flight() + o.unsent()),
        forall|i: int|
            0 <= i < (o.in_flight() + o.unsent()).len() ==> !is_reserved_xid(
                #[trigger] (o.in_flight() + o.unsent())[i].xid,
            ),
{
    let all = o.in_flight() + o.unsent();
    assert forall|i: int| 0 <= i < all.len() implies !is_reserved_xid(#[trigger] all[i].xid) by {
        assert(all[i].xid >= 1);
    }
}

} // verus!
