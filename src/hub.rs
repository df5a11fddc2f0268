//! The broadcast hub: the registry of live listener connections, and the
//! fan-out of each published frame to every open connection's queue.
//!
//! One hub is owned by one scheduling context; every change goes through
//! `&mut self`, one at a time, so the order in which frames reach the hub is
//! the order in which they are queued on every connection.
use std::sync::Arc;
use vstd::prelude::*;

verus! {

/// An encoded event, shared by every queue that holds it.
pub type Frame = Arc<Vec<u8>>;

/// Where a registered connection stands.
#[derive(Debug, Clone, Copy, PartialEq, Eq, Structural)]
pub enum ConnectionState {
    /// Its queue accepts frames.
    Open,
    /// Its draining side is gone: the next frame sent to it fails, and the
    /// hub then removes it.
    Closing,
}

/// One listener connection: its address, its outbound queue of frames not
/// yet written, and its state.
pub struct Connection {
    id: u64,
    addr: String,
    queue: Vec<Frame>,
    state: ConnectionState,
}

/// What a connection holds, as values.
pub struct ConnectionView {
    pub id: u64,
    pub addr: Seq<char>,
    pub queue: Seq<Frame>,
    pub open: bool,
}

impl View for Connection {
    type V = ConnectionView;

    closed spec fn view(&self) -> ConnectionView {
        ConnectionView {
            id: self.id,
            addr: self.addr@,
            queue: self.queue@,
            open: self.state == ConnectionState::Open,
        }
    }
}

/// The registry of connections, oldest first, and the id that the next
/// registration receives.
pub struct Hub {
    next_id: u64,
    conns: Vec<Connection>,
}

/// What a hub holds, as values.
pub struct HubView {
    pub next_id: nat,
    pub conns: Seq<ConnectionView>,
}

/// The views of a sequence of connections.
pub open spec fn views(cs: Seq<Connection>) -> Seq<ConnectionView> {
    cs.map_values(|c: Connection| c@)
}

proof fn lemma_views_push(s: Seq<Connection>, c: Connection)
    ensures
        views(s.push(c)) == views(s).push(c@),
{
    assert(views(s.push(c)) =~= views(s).push(c@));
}

proof fn lemma_views_tail(s: Seq<Connection>)
    requires
        s.len() > 0,
    ensures
        views(s.subrange(1, s.len() as int)) == views(s).subrange(1, s.len() as int),
        views(s)[0] == s[0]@,
{
    assert(views(s.subrange(1, s.len() as int)) =~= views(s).subrange(1, s.len() as int));
}

impl View for Hub {
    type V = HubView;

    closed spec fn view(&self) -> HubView {
        HubView { next_id: self.next_id as nat, conns: views(self.conns@) }
    }
}

/// Connection ids rise strictly from oldest to newest and stay below `next`,
/// so no two connections share an id and no id is handed out twice.
pub open spec fn ids_ordered(cs: Seq<ConnectionView>, next: nat) -> bool {
    &&& forall|i: int, j: int| 0 <= i < j < cs.len() ==> cs[i].id < cs[j].id
    &&& forall|i: int| 0 <= i < cs.len() ==> cs[i].id < next
}

/// A connection with `msgs` added at the end of its queue.
pub open spec fn with_queued(c: ConnectionView, msgs: Seq<Frame>) -> ConnectionView {
    ConnectionView { id: c.id, addr: c.addr, queue: c.queue + msgs, open: c.open }
}

/// The registry after `msgs` are offered to every connection in turn, all
/// at once: each open connection has them appended in order, and each closing
/// one, whose queue refuses them, is removed.
pub open spec fn deliver(cs: Seq<ConnectionView>, msgs: Seq<Frame>) -> Seq<ConnectionView>
    decreases cs.len(),
{
    if cs.len() == 0 {
        cs
    } else {
        let rest = deliver(cs.drop_last(), msgs);
        if cs.last().open {
            rest.push(with_queued(cs.last(), msgs))
        } else {
            rest
        }
    }
}

/// The registry after one publication of `m`.
pub open spec fn fan_out(cs: Seq<ConnectionView>, m: Frame) -> Seq<ConnectionView> {
    deliver(cs, seq![m])
}

/// The registry without the connection `id`.
pub open spec fn without(cs: Seq<ConnectionView>, id: u64) -> Seq<ConnectionView>
    decreases cs.len(),
{
    if cs.len() == 0 {
        cs
    } else if cs.last().id == id {
        without(cs.drop_last(), id)
    } else {
        without(cs.drop_last(), id).push(cs.last())
    }
}

/// The registry with the connection `id` marked as closing.
pub open spec fn closing(cs: Seq<ConnectionView>, id: u64) -> Seq<ConnectionView> {
    cs.map_values(
        |c: ConnectionView|
            if c.id == id {
                ConnectionView { id: c.id, addr: c.addr, queue: c.queue, open: false }
            } else {
                c
            },
    )
}

/// The registry with the queue of connection `id` emptied.
pub open spec fn drained(cs: Seq<ConnectionView>, id: u64) -> Seq<ConnectionView> {
    cs.map_values(
        |c: ConnectionView|
            if c.id == id {
                ConnectionView { id: c.id, addr: c.addr, queue: Seq::empty(), open: c.open }
            } else {
                c
            },
    )
}

/// The frames queued for connection `id`; none where it is not registered.
pub open spec fn pending(cs: Seq<ConnectionView>, id: u64) -> Seq<Frame>
    decreases cs.len(),
{
    if cs.len() == 0 {
        Seq::empty()
    } else if cs.last().id == id {
        cs.last().queue
    } else {
        pending(cs.drop_last(), id)
    }
}

/// The registry after `msgs` are published one after another.
pub open spec fn publish_all(cs: Seq<ConnectionView>, msgs: Seq<Frame>) -> Seq<ConnectionView>
    decreases msgs.len(),
{
    if msgs.len() == 0 {
        cs
    } else {
        fan_out(publish_all(cs, msgs.drop_last()), msgs.last())
    }
}

/// The open connections of a registry, in order.
pub open spec fn open_only(cs: Seq<ConnectionView>) -> Seq<ConnectionView>
    decreases cs.len(),
{
    if cs.len() == 0 {
        cs
    } else if cs.last().open {
        open_only(cs.drop_last()).push(cs.last())
    } else {
        open_only(cs.drop_last())
    }
}

proof fn lemma_deliver_twice(cs: Seq<ConnectionView>, a: Seq<Frame>, b: Seq<Frame>)
    ensures
        deliver(deliver(cs, a), b) == deliver(cs, a + b),
    decreases cs.len(),
{
    if cs.len() > 0 {
        lemma_deliver_twice(cs.drop_last(), a, b);
        let c = cs.last();
        if c.open {
            let x = deliver(cs.drop_last(), a);
            assert(x.push(with_queued(c, a)).drop_last() =~= x);
            assert(with_queued(with_queued(c, a), b).queue =~= with_queued(c, a + b).queue);
        }
    }
}

proof fn lemma_deliver_open_only(cs: Seq<ConnectionView>, msgs: Seq<Frame>)
    ensures
        deliver(cs, msgs) == deliver(open_only(cs), msgs),
    decreases cs.len(),
{
    if cs.len() > 0 {
        lemma_deliver_open_only(cs.drop_last(), msgs);
        if cs.last().open {
            let x = open_only(cs.drop_last());
            assert(x.push(cs.last()).drop_last() =~= x);
        }
    }
}

proof fn lemma_deliver_all_open(cs: Seq<ConnectionView>, msgs: Seq<Frame>)
    requires
        forall|i: int| 0 <= i < cs.len() ==> #[trigger] cs[i].open,
    ensures
        deliver(cs, msgs).len() == cs.len(),
        forall|i: int|
            0 <= i < cs.len() ==> #[trigger] deliver(cs, msgs)[i] == with_queued(cs[i], msgs),
    decreases cs.len(),
{
    if cs.len() > 0 {
        let d = cs.drop_last();
        assert forall|i: int| 0 <= i < d.len() implies #[trigger] d[i].open by {
            assert(d[i] == cs[i]);
        }
        lemma_deliver_all_open(d, msgs);
        assert(cs.last().open);
    }
}

/// Publishing a nonempty run of frames one after another leaves the
/// registry as offering the whole run at once: every open connection has
/// the run appended in publication order, and every closing one is gone.
pub proof fn lemma_publish_all(cs: Seq<ConnectionView>, msgs: Seq<Frame>)
    requires
        msgs.len() > 0,
    ensures
        publish_all(cs, msgs) == deliver(cs, msgs),
    decreases msgs.len(),
{
    if msgs.len() > 1 {
        let init = msgs.drop_last();
        lemma_publish_all(cs, init);
        lemma_deliver_twice(cs, init, seq![msgs.last()]);
        assert(init + seq![msgs.last()] =~= msgs);
        assert(publish_all(cs, msgs) == fan_out(publish_all(cs, init), msgs.last()));
    } else {
        assert(msgs.drop_last().len() == 0);
        assert(publish_all(cs, msgs.drop_last()) == cs);
        assert(seq![msgs.last()] =~= msgs);
    }
}

/// Every frame published while connections are registered and open reaches
/// each of them exactly once, in publication order: after the run `msgs`,
/// the registry holds the same connections, each with `msgs` appended to
/// its queue.
pub proof fn lemma_each_connection_gets_each_frame(cs: Seq<ConnectionView>, msgs: Seq<Frame>)
    requires
        forall|i: int| 0 <= i < cs.len() ==> #[trigger] cs[i].open,
    ensures
        publish_all(cs, msgs).len() == cs.len(),
        forall|i: int|
            0 <= i < cs.len() ==> #[trigger] publish_all(cs, msgs)[i] == with_queued(cs[i], msgs),
{
    if msgs.len() > 0 {
        lemma_publish_all(cs, msgs);
        lemma_deliver_all_open(cs, msgs);
    } else {
        assert forall|i: int| 0 <= i < cs.len() implies #[trigger] publish_all(cs, msgs)[i]
            == with_queued(cs[i], msgs) by {
            assert(cs[i].queue + msgs =~= cs[i].queue);
        }
    }
}

/// Connections whose queues refuse frames do not affect delivery to the
/// others: publishing a nonempty run leaves the registry exactly as if only
/// the open connections had been registered, and each of those receives the
/// whole run, in order.
pub proof fn lemma_broken_connections_isolated(cs: Seq<ConnectionView>, msgs: Seq<Frame>)
    requires
        msgs.len() > 0,
    ensures
        publish_all(cs, msgs) == publish_all(open_only(cs), msgs),
        publish_all(cs, msgs).len() == open_only(cs).len(),
        forall|i: int|
            0 <= i < open_only(cs).len() ==> #[trigger] publish_all(cs, msgs)[i] == with_queued(
                open_only(cs)[i],
                msgs,
            ),
{
    lemma_publish_all(cs, msgs);
    lemma_publish_all(open_only(cs), msgs);
    lemma_deliver_open_only(cs, msgs);
    lemma_open_only_open(cs);
    lemma_each_connection_gets_each_frame(open_only(cs), msgs);
}

proof fn lemma_open_only_open(cs: Seq<ConnectionView>)
    ensures
        forall|i: int| 0 <= i < open_only(cs).len() ==> #[trigger] open_only(cs)[i].open,
    decreases cs.len(),
{
    if cs.len() > 0 {
        let d = open_only(cs.drop_last());
        lemma_open_only_open(cs.drop_last());
        if cs.last().open {
            assert forall|i: int| 0 <= i < open_only(cs).len() implies #[trigger] open_only(
                cs,
            )[i].open by {
                if i < d.len() {
                    assert(open_only(cs)[i] == d[i]);
                }
            }
        }
    }
}

/// There is no replay: a connection registered after a frame `e` was
/// published receives exactly the frames published after it, and so never
/// `e` itself.
pub proof fn lemma_no_replay(
    cs: Seq<ConnectionView>,
    e: Frame,
    late: ConnectionView,
    msgs: Seq<Frame>,
)
    requires
        late.open,
        late.queue.len() == 0,
    ensures
        publish_all(fan_out(cs, e).push(late), msgs).last() == with_queued(late, msgs),
        publish_all(fan_out(cs, e).push(late), msgs).last().queue == msgs,
{
    let after = fan_out(cs, e).push(late);
    if msgs.len() > 0 {
        lemma_publish_all(after, msgs);
        assert(after.drop_last() =~= fan_out(cs, e));
    } else {
        assert(late.queue + msgs =~= late.queue);
    }
    assert(late.queue + msgs =~= msgs);
}

impl Hub {
    /// The registry's own invariant.
    pub open spec fn wf(&self) -> bool {
        ids_ordered(self@.conns, self@.next_id)
    }

    /// An empty registry.
    pub fn new() -> (r: Hub)
        ensures
            r.wf(),
            r@.next_id == 0,
            r@.conns == Seq::<ConnectionView>::empty(),
    {
        let r = Hub { next_id: 0, conns: Vec::new() };
        assert(views(r.conns@) =~= Seq::<ConnectionView>::empty());
        r
    }

    /// Whether another connection can be given a fresh id.
    pub fn can_register(&self) -> (r: bool)
        ensures
            r == (self@.next_id < u64::MAX),
    {
        self.next_id < u64::MAX
    }

    /// Adds a new open connection with an empty queue, and gives its id.
    pub fn register(&mut self, addr: String) -> (id: u64)
        requires
            old(self).wf(),
            old(self)@.next_id < u64::MAX,
        ensures
            final(self).wf(),
            id == old(self)@.next_id,
            final(self)@.next_id == old(self)@.next_id + 1,
            final(self)@.conns == old(self)@.conns.push(
                ConnectionView { id, addr: addr@, queue: Seq::empty(), open: true },
            ),
    {
        let id = self.next_id;
        let c = Connection { id, addr, queue: Vec::new(), state: ConnectionState::Open };
        self.conns.push(c);
        self.next_id = self.next_id + 1;
        proof {
            assert(c@.queue =~= Seq::<Frame>::empty());
            assert(views(self.conns@) =~= views(old(self).conns@).push(c@));
        }
        id
    }

    /// Offers `msg` to every registered connection, oldest first: each open
    /// connection has it appended to its queue; each closing one refuses it
    /// and is removed. No other connection is affected by a refusal.
    pub fn publish(&mut self, msg: &Frame)
        requires
            old(self).wf(),
        ensures
            final(self).wf(),
            final(self)@.next_id == old(self)@.next_id,
            final(self)@.conns == fan_out(old(self)@.conns, *msg),
    {
        let mut rest: Vec<Connection> = Vec::new();
        std::mem::swap(&mut rest, &mut self.conns);
        let ghost orig = views(rest@);
        let ghost next = self@.next_id;
        let mut kept: Vec<Connection> = Vec::new();
        let ghost mut k: int = 0;
        while rest.len() > 0
            invariant
                0 <= k <= orig.len(),
                ids_ordered(orig, next),
                next == self.next_id as nat,
                views(rest@) == orig.subrange(k, orig.len() as int),
                views(kept@) == fan_out(orig.subrange(0, k), *msg),
                ids_ordered(views(kept@), next),
                forall|i: int|
                    0 <= i < kept@.len() && k < orig.len() ==> #[trigger] kept@[i].id < orig[k].id,
            decreases rest.len(),
        {
            proof {
                assert(views(rest@).len() == rest@.len());
                assert(views(rest@)[0] == orig.subrange(k, orig.len() as int)[0]);
            }
            let ghost rest_before = rest@;
            let mut c = rest.remove(0);
            proof {
                lemma_views_tail(rest_before);
                assert(c@ == orig[k]);
                assert(rest@ =~= rest_before.subrange(1, rest_before.len() as int));
                assert(orig.subrange(0, k + 1).drop_last() =~= orig.subrange(0, k));
                assert(orig.subrange(0, k + 1).last() == orig[k]);
                assert(views(rest@) =~= orig.subrange(k + 1, orig.len() as int));
            }
            let ghost before = views(kept@);
            match c.state {
                ConnectionState::Open => {
                    let ghost old_c = c@;
                    c.queue.push(msg.clone());
                    proof {
                        assert(c.queue@ =~= old_c.queue + seq![*msg]);
                        lemma_views_push(kept@, c);
                    }
                    kept.push(c);
                    proof {
                        assert(views(kept@) =~= before.push(with_queued(orig[k], seq![*msg])));
                    }
                },
                ConnectionState::Closing => {},
            }
            proof {
                k = k + 1;
            }
        }
        proof {
            assert(orig.subrange(0, k) =~= orig);
        }
        self.conns = kept;
    }

    /// Marks connection `id` as closing: its draining side is gone, and the
    /// next frame offered to it is refused. Other connections are unchanged.
    pub fn close(&mut self, id: u64)
        requires
            old(self).wf(),
        ensures
            final(self).wf(),
            final(self)@.next_id == old(self)@.next_id,
            final(self)@.conns == closing(old(self)@.conns, id),
    {
        let mut rest: Vec<Connection> = Vec::new();
        std::mem::swap(&mut rest, &mut self.conns);
        let ghost orig = views(rest@);
        let mut kept: Vec<Connection> = Vec::new();
        let ghost mut k: int = 0;
        while rest.len() > 0
            invariant
                0 <= k <= orig.len(),
                views(rest@) == orig.subrange(k, orig.len() as int),
                views(kept@) == closing(orig.subrange(0, k), id),
            decreases rest.len(),
        {
            proof {
                assert(views(rest@).len() == rest@.len());
                assert(views(rest@)[0] == orig.subrange(k, orig.len() as int)[0]);
            }
            let ghost rest_before = rest@;
            let mut c = rest.remove(0);
            proof {
                lemma_views_tail(rest_before);
                assert(c@ == orig[k]);
                assert(rest@ =~= rest_before.subrange(1, rest_before.len() as int));
                assert(views(rest@) =~= orig.subrange(k + 1, orig.len() as int));
            }
            if c.id == id {
                c.state = ConnectionState::Closing;
            }
            proof {
                lemma_views_push(kept@, c);
            }
            kept.push(c);
            proof {
                k = k + 1;
                assert(views(kept@) =~= closing(orig.subrange(0, k), id));
            }
        }
        proof {
            assert(orig.subrange(0, k) =~= orig);
        }
        self.conns = kept;
    }

    /// Removes connection `id` from the registry; does nothing where it is
    /// not registered.
    pub fn deregister(&mut self, id: u64)
        requires
            old(self).wf(),
        ensures
            final(self).wf(),
            final(self)@.next_id == old(self)@.next_id,
            final(self)@.conns == without(old(self)@.conns, id),
    {
        let mut rest: Vec<Connection> = Vec::new();
        std::mem::swap(&mut rest, &mut self.conns);
        let ghost orig = views(rest@);
        let ghost next = self@.next_id;
        let mut kept: Vec<Connection> = Vec::new();
        let ghost mut k: int = 0;
        while rest.len() > 0
            invariant
                0 <= k <= orig.len(),
                ids_ordered(orig, next),
                next == self.next_id as nat,
                views(rest@) == orig.subrange(k, orig.len() as int),
                views(kept@) == without(orig.subrange(0, k), id),
                ids_ordered(views(kept@), next),
                forall|i: int|
                    0 <= i < kept@.len() && k < orig.len() ==> #[trigger] kept@[i].id < orig[k].id,
            decreases rest.len(),
        {
            proof {
                assert(views(rest@).len() == rest@.len());
                assert(views(rest@)[0] == orig.subrange(k, orig.len() as int)[0]);
            }
            let ghost rest_before = rest@;
            let c = rest.remove(0);
            proof {
                lemma_views_tail(rest_before);
                assert(c@ == orig[k]);
                assert(rest@ =~= rest_before.subrange(1, rest_before.len() as int));
                assert(orig.subrange(0, k + 1).drop_last() =~= orig.subrange(0, k));
                assert(orig.subrange(0, k + 1).last() == orig[k]);
                assert(views(rest@) =~= orig.subrange(k + 1, orig.len() as int));
            }
            if c.id != id {
                proof {
                    lemma_views_push(kept@, c);
                }
                kept.push(c);
            }
            proof {
                k = k + 1;
            }
        }
        proof {
            assert(orig.subrange(0, k) =~= orig);
        }
        self.conns = kept;
    }

    /// Hands out the frames queued for connection `id`, oldest first, and
    /// empties its queue; gives none where it is not registered.
    pub fn take_pending(&mut self, id: u64) -> (r: Vec<Frame>)
        requires
            old(self).wf(),
        ensures
            final(self).wf(),
            final(self)@.next_id == old(self)@.next_id,
            final(self)@.conns == drained(old(self)@.conns, id),
            r@ == pending(old(self)@.conns, id),
    {
        let mut rest: Vec<Connection> = Vec::new();
        std::mem::swap(&mut rest, &mut self.conns);
        let ghost orig = views(rest@);
        let mut kept: Vec<Connection> = Vec::new();
        let mut taken: Vec<Frame> = Vec::new();
        let ghost mut k: int = 0;
        while rest.len() > 0
            invariant
                0 <= k <= orig.len(),
                views(rest@) == orig.subrange(k, orig.len() as int),
                views(kept@) == drained(orig.subrange(0, k), id),
                taken@ == pending(orig.subrange(0, k), id),
            decreases rest.len(),
        {
            proof {
                assert(views(rest@).len() == rest@.len());
                assert(views(rest@)[0] == orig.subrange(k, orig.len() as int)[0]);
            }
            let ghost rest_before = rest@;
            let mut c = rest.remove(0);
            proof {
                lemma_views_tail(rest_before);
                assert(c@ == orig[k]);
                assert(rest@ =~= rest_before.subrange(1, rest_before.len() as int));
                assert(orig.subrange(0, k + 1).drop_last() =~= orig.subrange(0, k));
                assert(orig.subrange(0, k + 1).last() == orig[k]);
                assert(views(rest@) =~= orig.subrange(k + 1, orig.len() as int));
            }
            if c.id == id {
                let mut q: Vec<Frame> = Vec::new();
                std::mem::swap(&mut q, &mut c.queue);
                taken = q;
            }
            proof {
                lemma_views_push(kept@, c);
            }
            kept.push(c);
            proof {
                k = k + 1;
                assert(views(kept@) =~= drained(orig.subrange(0, k), id));
            }
        }
        proof {
            assert(orig.subrange(0, k) =~= orig);
        }
        self.conns = kept;
        taken
    }

    /// Whether connection `id` is registered.
    pub fn is_registered(&self, id: u64) -> (r: bool)
        ensures
            r == exists|i: int| 0 <= i < self@.conns.len() && #[trigger] self@.conns[i].id == id,
    {
        let mut i: usize = 0;
        assert(self@.conns.len() == self.conns@.len());
        while i < self.conns.len()
            invariant
                i <= self.conns@.len(),
                self@.conns.len() == self.conns@.len(),
                forall|j: int| 0 <= j < i ==> #[trigger] self@.conns[j].id != id,
            decreases self.conns@.len() - i,
        {
            proof {
                assert(self@.conns[i as int] == self.conns@[i as int]@);
            }
            if self.conns[i].id == id {
                proof {
                    assert(self@.conns[i as int].id == id);
                }
                return true;
            }
            i = i + 1;
        }
        false
    }

    /// The number of registered connections.
    pub fn len(&self) -> (r: usize)
        ensures
            r == self@.conns.len(),
    {
        self.conns.len()
    }
}

} // verus!