//! The relay hub's connection registry and broadcast fan-out.
//!
//! Each live client connection owns a bounded outbound queue. Broadcasting
//! pushes a copy of the message onto every queue that accepts it; a queue
//! that is closed or full has its connection dropped from the registry, so
//! one bad connection never affects the rest. The sockets themselves live
//! outside this crate: the caller registers a connection on accept, drains
//! its queue to the socket, and closes it on the first transport failure.

use vstd::prelude::*;

use crate::chat::clone_messages;
use crate::chat::ChatMessage;
use crate::chat::MessageView;

verus! {

/// Capacity of each connection's outbound queue; a slow consumer whose
/// queue is full is treated as disconnected.
pub const QUEUE_CAPACITY: usize = 100;

/// Abstract value of one registered connection.
pub ghost struct ConnectionView {
    pub id: u64,
    pub queue: Seq<MessageView>,
    pub open: bool,
}

struct Connection {
    id: u64,
    queue: Vec<ChatMessage>,
    open: bool,
}

impl DeepView for Connection {
    type V = ConnectionView;

    closed spec fn deep_view(&self) -> ConnectionView {
        ConnectionView { id: self.id, queue: self.queue.deep_view(), open: self.open }
    }
}

/// Whether a broadcast to this connection succeeds: it must be open and
/// its queue must have room.
pub open spec fn accepts(c: ConnectionView) -> bool {
    c.open && c.queue.len() < QUEUE_CAPACITY
}

/// The registry after one fan-out of `m`: the connections that accepted it,
/// in order, each with `m` appended; the others are dropped.
pub open spec fn fanout(s: Seq<ConnectionView>, m: MessageView) -> Seq<ConnectionView>
    decreases s.len(),
{
    if s.len() == 0 {
        Seq::empty()
    } else {
        let rest = fanout(s.drop_last(), m);
        let c = s.last();
        if accepts(c) {
            rest.push(ConnectionView { id: c.id, queue: c.queue.push(m), open: c.open })
        } else {
            rest
        }
    }
}

/// The set of currently live connections' outbound queues.
pub struct Registry {
    conns: Vec<Connection>,
    next_id: u64,
}

impl View for Registry {
    type V = Seq<ConnectionView>;

    closed spec fn view(&self) -> Seq<ConnectionView> {
        self.conns.deep_view()
    }
}

impl Registry {
    /// Ids are distinct, below the next free id, and queues are bounded.
    pub closed spec fn wf(&self) -> bool {
        &&& forall|i: int, j: int| 0 <= i < j < self@.len() ==> self@[i].id != self@[j].id
        &&& forall|i: int| 0 <= i < self@.len() ==> #[trigger] self@[i].id < self.next_id
        &&& forall|i: int| 0 <= i < self@.len() ==> #[trigger] self@[i].queue.len() <= QUEUE_CAPACITY
    }

    /// Whether a fresh connection id can still be assigned.
    pub closed spec fn fresh_ids_left(&self) -> bool {
        self.next_id < u64::MAX
    }

    /// An empty registry.
    pub fn new() -> (r: Registry)
        ensures
            r.wf(),
            r.fresh_ids_left(),
            r@ == Seq::<ConnectionView>::empty(),
    {
        let r = Registry { conns: Vec::new(), next_id: 0 };
        proof {
            assert(r.conns.deep_view() =~= Seq::<ConnectionView>::empty());
        }
        r
    }

    /// Exposes [`Registry::fresh_ids_left`] to callers.
    pub fn has_fresh_ids(&self) -> (r: bool)
        ensures
            r == self.fresh_ids_left(),
    {
        self.next_id < u64::MAX
    }

    /// Adds a connection with an empty outbound queue and returns its id.
    pub fn register(&mut self) -> (id: u64)
        requires
            old(self).wf(),
            old(self).fresh_ids_left(),
        ensures
            final(self).wf(),
            final(self)@ == old(self)@.push(
                ConnectionView { id, queue: Seq::empty(), open: true },
            ),
            forall|i: int| 0 <= i < old(self)@.len() ==> #[trigger] old(self)@[i].id != id,
    {
        let id = self.next_id;
        self.next_id = self.next_id + 1;
        let conn = Connection { id, queue: Vec::new(), open: true };
        let ghost cv = conn.deep_view();
        self.conns.push(conn);
        proof {
            assert(cv.queue =~= Seq::<MessageView>::empty());
            assert(self.conns.deep_view() =~= old(self)@.push(cv));
        }
        id
    }

    /// The number of live connections.
    pub fn len(&self) -> (n: usize)
        ensures
            n == self@.len(),
    {
        self.conns.len()
    }

    /// Marks the connection closed, so the next fan-out drops it. Reported
    /// transport failures come through here.
    pub fn close(&mut self, id: u64)
        requires
            old(self).wf(),
        ensures
            final(self).wf(),
            final(self)@.len() == old(self)@.len(),
            forall|i: int|
                0 <= i < old(self)@.len() ==> #[trigger] final(self)@[i] == if old(
                    self,
                )@[i].id == id {
                    ConnectionView { open: false, ..old(self)@[i] }
                } else {
                    old(self)@[i]
                },
            final(self).fresh_ids_left() == old(self).fresh_ids_left(),
    {
        let n = self.conns.len();
        let mut i: usize = 0;
        while i < n
            invariant
                i <= n,
                n == self.conns.len(),
                self.next_id == old(self).next_id,
                old(self).wf(),
                old(self)@.len() == n,
                forall|j: int|
                    i <= j < n ==> #[trigger] self.conns.deep_view()[j] == old(self)@[j],
                forall|j: int|
                    0 <= j < i ==> #[trigger] self.conns.deep_view()[j] == if old(self)@[j].id
                        == id {
                        ConnectionView { open: false, ..old(self)@[j] }
                    } else {
                        old(self)@[j]
                    },
            decreases n - i,
        {
            if self.conns[i].id == id {
                let ghost d0 = self.conns.deep_view();
                let cid = self.conns[i].id;
                let q = clone_messages(&self.conns[i].queue);
                self.conns.set(i, Connection { id: cid, queue: q, open: false });
                proof {
                    assert(self.conns.deep_view() =~= d0.update(
                        i as int,
                        ConnectionView { open: false, ..d0[i as int] },
                    ));
                }
            }
            i += 1;
        }
    }

    /// Takes the queued outbound messages of connection `id`, leaving its
    /// queue empty; `None` when no such connection is live.
    pub fn drain(&mut self, id: u64) -> (r: Option<Vec<ChatMessage>>)
        requires
            old(self).wf(),
        ensures
            final(self).wf(),
            final(self).fresh_ids_left() == old(self).fresh_ids_left(),
            match r {
                Some(msgs) => {
                    &&& exists|i: int|
                        {
                            &&& 0 <= i < old(self)@.len()
                            &&& old(self)@[i].id == id
                            &&& msgs.deep_view() == old(self)@[i].queue
                            &&& final(self)@ =~= old(self)@.update(
                                i,
                                ConnectionView { queue: Seq::empty(), ..old(self)@[i] },
                            )
                        }
                },
                None => {
                    &&& final(self)@ == old(self)@
                    &&& forall|i: int|
                        0 <= i < old(self)@.len() ==> #[trigger] old(self)@[i].id != id
                },
            },
    {
        let n = self.conns.len();
        let mut i: usize = 0;
        while i < n
            invariant
                i <= n,
                n == self.conns.len(),
                self.conns.deep_view() == old(self)@,
                self.next_id == old(self).next_id,
                old(self).wf(),
                forall|j: int| 0 <= j < i ==> #[trigger] self.conns.deep_view()[j].id != id,
            decreases n - i,
        {
            if self.conns[i].id == id {
                let cid = self.conns[i].id;
                let op = self.conns[i].open;
                let msgs = clone_messages(&self.conns[i].queue);
                let emptied = Connection { id: cid, queue: Vec::new(), open: op };
                let ghost cv = emptied.deep_view();
                self.conns.set(i, emptied);
                proof {
                    assert(cv.queue =~= Seq::<MessageView>::empty());
                    assert(cv == (ConnectionView { queue: Seq::empty(), ..old(self)@[i as int] }));
                    assert(self.conns.deep_view() =~= old(self)@.update(i as int, cv));
                }
                return Some(msgs);
            }
            i += 1;
        }
        None
    }

    /// Fan-out: pushes a copy of `msg` onto every open queue with room and
    /// drops the connections whose queue is closed or full, per [`fanout`].
    pub fn broadcast(&mut self, msg: &ChatMessage)
        requires
            old(self).wf(),
        ensures
            final(self).wf(),
            final(self)@ == fanout(old(self)@, msg@),
            final(self).fresh_ids_left() == old(self).fresh_ids_left(),
    {
        let ghost s0 = self@;
        let n = self.conns.len();
        let mut kept: Vec<Connection> = Vec::new();
        let mut i: usize = 0;
        while i < n
            invariant
                i <= n,
                n == self.conns.len(),
                self.conns.deep_view() == s0,
                s0 == old(self)@,
                self.next_id == old(self).next_id,
                old(self).wf(),
                kept.deep_view() =~= fanout(s0.subrange(0, i as int), msg@),
                forall|j: int|
                    0 <= j < kept.deep_view().len() ==> #[trigger] kept.deep_view()[j].queue.len()
                        <= QUEUE_CAPACITY,
                forall|j: int, c: int|
                    0 <= j < kept.deep_view().len() && 0 <= c < s0.len() && i <= c
                        ==> #[trigger] kept.deep_view()[j].id != #[trigger] s0[c].id,
                forall|j: int, l: int|
                    0 <= j < l < kept.deep_view().len() ==> kept.deep_view()[j].id
                        != kept.deep_view()[l].id,
                forall|j: int|
                    0 <= j < kept.deep_view().len() ==> #[trigger] kept.deep_view()[j].id < old(
                        self,
                    ).next_id,
            decreases n - i,
        {
            let ghost kept0 = kept.deep_view();
            let c = &self.conns[i];
            let ghost cv = s0[i as int];
            if c.open && c.queue.len() < QUEUE_CAPACITY {
                let mut copy = Connection {
                    id: c.id,
                    queue: clone_messages(&c.queue),
                    open: c.open,
                };
                copy.queue.push(msg.clone());
                let ghost cv2 = copy.deep_view();
                kept.push(copy);
                proof {
                    assert(cv2.queue =~= cv.queue.push(msg@));
                    assert(cv2 == (ConnectionView {
                        id: cv.id,
                        queue: cv.queue.push(msg@),
                        open: cv.open,
                    }));
                    assert forall|c: int| i < c < s0.len() implies s0[i as int].id
                        != #[trigger] s0[c].id by {
                        assert(old(self)@[i as int].id != old(self)@[c].id);
                    }
                    assert(s0[i as int].id < old(self).next_id);
                    assert(kept.deep_view() =~= kept0.push(cv2));
                }
            }
            proof {
                assert(s0.subrange(0, i as int + 1).drop_last() =~= s0.subrange(0, i as int));
                assert(s0.subrange(0, i as int + 1).last() == cv);
            }
            i += 1;
        }
        self.conns = kept;
        proof {
            assert(s0.subrange(0, s0.len() as int) =~= s0);
        }
    }
}

/// Law: a broadcast is isolated per connection: the registry afterwards
/// holds exactly the connections that accepted the message, in their old
/// order, each with the message appended to its queue; one closed or full
/// connection has no effect on the others.
pub proof fn lemma_fanout_is_filter_map(s: Seq<ConnectionView>, m: MessageView)
    ensures
        fanout(s, m) == s.filter(|c: ConnectionView| accepts(c)).map_values(
            |c: ConnectionView| ConnectionView { id: c.id, queue: c.queue.push(m), open: c.open },
        ),
    decreases s.len(),
{
    reveal(Seq::filter);
    let pred = |c: ConnectionView| accepts(c);
    let app = |c: ConnectionView| ConnectionView { id: c.id, queue: c.queue.push(m), open: c.open };
    if s.len() == 0 {
        assert(fanout(s, m) =~= s.filter(pred).map_values(app));
    } else {
        lemma_fanout_is_filter_map(s.drop_last(), m);
        if pred(s.last()) {
            assert(s.filter(pred) == s.drop_last().filter(pred).push(s.last()));
            assert(s.filter(pred).map_values(app) =~= s.drop_last().filter(pred).map_values(
                app,
            ).push(app(s.last())));
            assert(fanout(s, m) =~= s.filter(pred).map_values(app));
        } else {
            assert(s.filter(pred) == s.drop_last().filter(pred));
            assert(fanout(s, m) =~= s.filter(pred).map_values(app));
        }
    }
}

} // verus!
