//! A named broadcast domain and its broadcast engine.
//!
//! A room holds a set of subscriber slots, a pending queue for messages
//! published while nobody is subscribed, and a bounded history ring. The
//! broadcast step ([`Room::publish`]) fans one dequeued message out to every
//! live subscriber in arrival order, flushing the pending queue to the first
//! subscribers that show up.
//!
//! The bounded intake channel that sits between the publishers and the
//! engine belongs to the caller: the engine is that channel's single
//! consumer, so delivery order equals enqueue order, and one [`Room::publish`]
//! call here is one engine dequeue.

use vstd::prelude::*;

use crate::history::{recent, History};

verus! {

/// Abstract state of one subscriber slot: whether its channel is still live,
/// and everything the broadcast engine has handed to it, in order.
#[verifier::ext_equal]
pub struct SubModel {
    pub alive: bool,
    pub delivered: Seq<Seq<u8>>,
}

/// Abstract state of one room.
#[verifier::ext_equal]
pub struct RoomModel {
    /// Subscriber slots in join order; slots are never removed, pruning only
    /// clears the `alive` flag.
    pub subs: Seq<SubModel>,
    /// Messages accepted while no live subscriber existed, oldest first.
    pub pending: Seq<Seq<u8>>,
    /// Every message the engine ever dequeued, oldest first.
    pub hist_log: Seq<Seq<u8>>,
    /// What the history ring currently retains, oldest first.
    pub hist: Seq<Seq<u8>>,
    /// History ring capacity.
    pub hist_cap: nat,
    /// Capacity of the room's publish-intake channel.
    pub intake_cap: nat,
    /// Capacity of each subscriber's delivery channel.
    pub sub_cap: nat,
}

/// Does the room currently have at least one live subscriber?
pub open spec fn has_live(rm: RoomModel) -> bool {
    exists|i: int| 0 <= i < rm.subs.len() && rm.subs[i].alive
}

/// Hand `batch` (in order) to every live subscriber; dead slots are untouched.
pub open spec fn deliver_all(subs: Seq<SubModel>, batch: Seq<Seq<u8>>) -> Seq<SubModel> {
    Seq::new(
        subs.len(),
        |i: int|
            if subs[i].alive {
                SubModel { alive: true, delivered: subs[i].delivered + batch }
            } else {
                subs[i]
            },
    )
}

/// One broadcast-engine step on a dequeued message `m`: with no live
/// subscriber the message joins the pending queue; otherwise the pending
/// queue is flushed (oldest first) followed by `m` to every live subscriber
/// and then cleared. Either way `m` is appended to the history ring.
pub open spec fn step(rm: RoomModel, m: Seq<u8>) -> RoomModel {
    let log = rm.hist_log.push(m);
    if !has_live(rm) {
        RoomModel {
            subs: rm.subs,
            pending: rm.pending.push(m),
            hist_log: log,
            hist: recent(log, rm.hist_cap),
            hist_cap: rm.hist_cap,
            intake_cap: rm.intake_cap,
            sub_cap: rm.sub_cap,
        }
    } else {
        RoomModel {
            subs: deliver_all(rm.subs, rm.pending.push(m)),
            pending: Seq::empty(),
            hist_log: log,
            hist: recent(log, rm.hist_cap),
            hist_cap: rm.hist_cap,
            intake_cap: rm.intake_cap,
            sub_cap: rm.sub_cap,
        }
    }
}

/// Register one new live subscriber with an empty delivery record.
pub open spec fn join_model(rm: RoomModel) -> RoomModel {
    RoomModel { subs: rm.subs.push(SubModel { alive: true, delivered: Seq::empty() }), ..rm }
}

/// Mark subscriber slot `s` dead; its past deliveries are kept for the record.
pub open spec fn prune_model(rm: RoomModel, s: int) -> RoomModel {
    RoomModel {
        subs: rm.subs.update(s, SubModel { alive: false, delivered: rm.subs[s].delivered }),
        ..rm
    }
}

/// A room with no subscribers, nothing pending and an empty history.
pub open spec fn fresh_room(intake_cap: nat, sub_cap: nat, hist_cap: nat) -> RoomModel {
    RoomModel {
        subs: Seq::empty(),
        pending: Seq::empty(),
        hist_log: Seq::empty(),
        hist: Seq::empty(),
        hist_cap,
        intake_cap,
        sub_cap,
    }
}

/// The broadcast engine run over a whole sequence of intake messages, in
/// arrival order.
pub open spec fn run(rm: RoomModel, ms: Seq<Seq<u8>>) -> RoomModel
    decreases ms.len(),
{
    if ms.len() == 0 {
        rm
    } else {
        run(step(rm, ms[0]), ms.drop_first())
    }
}

/// Fan-out completeness: when a message is dequeued and at least one live
/// subscriber exists, every live subscriber receives the flushed pending
/// queue followed by that message — each message handed to it exactly once,
/// in one batch — while every dead slot is left exactly as it was.
pub proof fn lemma_fanout_completeness(rm: RoomModel, m: Seq<u8>, s: int)
    requires
        0 <= s < rm.subs.len(),
        rm.subs[s].alive,
    ensures
        step(rm, m).subs[s].delivered == rm.subs[s].delivered + rm.pending.push(m),
        forall|t: int|
            0 <= t < rm.subs.len() && !rm.subs[t].alive ==> step(rm, m).subs[t] == rm.subs[t],
{
    assert(has_live(rm));
}

/// Order preservation: a subscriber live while a whole sequence of messages
/// is published observes exactly that sequence, in publish order, appended to
/// its record after the pending queue flushed by the first of them. No
/// reordering, no duplication, no loss.
pub proof fn lemma_order_preservation(rm: RoomModel, ms: Seq<Seq<u8>>, s: int)
    requires
        0 <= s < rm.subs.len(),
        rm.subs[s].alive,
        ms.len() > 0,
    ensures
        run(rm, ms).subs[s].delivered == rm.subs[s].delivered + rm.pending + ms,
    decreases ms.len(),
{
    assert(has_live(rm));
    let rm1 = step(rm, ms[0]);
    assert(rm1.subs[s].delivered == rm.subs[s].delivered + rm.pending.push(ms[0]));
    assert(rm1.subs[s].alive);
    if ms.len() == 1 {
        assert(run(rm1, ms.drop_first()) == rm1);
        assert(rm.subs[s].delivered + rm.pending.push(ms[0]) =~= rm.subs[s].delivered
            + rm.pending + ms);
    } else {
        lemma_order_preservation(rm1, ms.drop_first(), s);
        assert(rm1.pending == Seq::<Seq<u8>>::empty());
        assert(run(rm, ms).subs[s].delivered == rm1.subs[s].delivered + rm1.pending
            + ms.drop_first());
        assert(rm1.subs[s].delivered + rm1.pending + ms.drop_first() =~= rm.subs[s].delivered
            + rm.pending + ms);
    }
}

/// Pending-queue flush: two messages published while a room with an empty
/// pending queue has no live subscriber are held; the first subscriber to
/// join then receives them, oldest first, followed by the next published
/// message — and nothing before them.
pub proof fn lemma_pending_flush(rm: RoomModel, m1: Seq<u8>, m2: Seq<u8>, m3: Seq<u8>)
    requires
        !has_live(rm),
        rm.pending == Seq::<Seq<u8>>::empty(),
    ensures
        step(join_model(step(step(rm, m1), m2)), m3).subs[rm.subs.len() as int].delivered
            == seq![m1, m2, m3],
{
    let rm1 = step(rm, m1);
    assert(!has_live(rm1));
    let rm2 = step(rm1, m2);
    assert(!has_live(rm2));
    let rm3 = join_model(rm2);
    let s = rm.subs.len() as int;
    assert(rm3.subs[s].alive);
    assert(has_live(rm3));
    let rm4 = step(rm3, m3);
    assert(rm2.pending == rm.pending.push(m1).push(m2));
    assert(rm4.subs[s].delivered == Seq::<Seq<u8>>::empty() + rm3.pending.push(m3));
    assert(rm4.subs[s].delivered =~= seq![m1, m2, m3]);
}

/// Every dequeued message is appended to the history log, whether or not
/// anyone was subscribed, and the ring capacity never changes.
pub proof fn lemma_run_hist_log(rm: RoomModel, ms: Seq<Seq<u8>>)
    ensures
        run(rm, ms).hist_log == rm.hist_log + ms,
        run(rm, ms).hist_cap == rm.hist_cap,
    decreases ms.len(),
{
    if ms.len() == 0 {
        assert(rm.hist_log + ms =~= rm.hist_log);
    } else {
        let rm1 = step(rm, ms[0]);
        lemma_run_hist_log(rm1, ms.drop_first());
        assert(rm1.hist_log + ms.drop_first() =~= rm.hist_log + ms);
    }
}

/// History bound: after any non-empty run the ring retains exactly the most
/// recent `hist_cap` dequeued messages, oldest first (everything, while fewer
/// have been dequeued than the capacity).
pub proof fn lemma_history_bound(rm: RoomModel, ms: Seq<Seq<u8>>)
    requires
        ms.len() > 0,
    ensures
        run(rm, ms).hist == recent(rm.hist_log + ms, rm.hist_cap),
    decreases ms.len(),
{
    let rm1 = step(rm, ms[0]);
    if ms.len() == 1 {
        assert(run(rm1, ms.drop_first()) == rm1);
        assert(rm.hist_log.push(ms[0]) =~= rm.hist_log + ms);
    } else {
        lemma_history_bound(rm1, ms.drop_first());
        lemma_run_hist_log(rm1, ms.drop_first());
        assert(rm1.hist_log + ms.drop_first() =~= rm.hist_log + ms);
    }
}

/// History bound from birth: once more messages than the ring's capacity
/// have been dequeued by a room that started empty, the ring holds exactly
/// the most recent `hist_cap` of them, oldest first.
pub proof fn lemma_history_bound_from_start(
    intake_cap: nat,
    sub_cap: nat,
    hist_cap: nat,
    ms: Seq<Seq<u8>>,
)
    requires
        ms.len() > hist_cap,
    ensures
        run(fresh_room(intake_cap, sub_cap, hist_cap), ms).hist == ms.skip(
            ms.len() - hist_cap,
        ),
{
    lemma_history_bound(fresh_room(intake_cap, sub_cap, hist_cap), ms);
    assert(Seq::<Seq<u8>>::empty() + ms =~= ms);
}

/// One named broadcast domain. The delivery record of each subscriber slot is
/// ghost state: at run time a slot is just its liveness flag, and the caller
/// moves the batches returned by [`Room::publish`] into the subscribers'
/// actual channels.
pub struct Room {
    alive: Vec<bool>,
    delivered: Ghost<Seq<Seq<Seq<u8>>>>,
    pending: Vec<Vec<u8>>,
    history: History,
    intake_capacity: usize,
    sub_capacity: usize,
}

impl View for Room {
    type V = RoomModel;

    closed spec fn view(&self) -> RoomModel {
        RoomModel {
            subs: Seq::new(
                self.alive@.len(),
                |i: int| SubModel { alive: self.alive@[i], delivered: self.delivered@[i] },
            ),
            pending: self.pending.deep_view(),
            hist_log: self.history.log(),
            hist: self.history.entries(),
            hist_cap: self.history.cap(),
            intake_cap: self.intake_capacity as nat,
            sub_cap: self.sub_capacity as nat,
        }
    }
}

impl Room {
    pub closed spec fn wf(self) -> bool {
        &&& self.delivered@.len() == self.alive@.len()
        &&& self.history.wf()
    }

    pub fn new(intake_capacity: usize, sub_capacity: usize, history_capacity: usize) -> (r: Room)
        ensures
            r.wf(),
            r@ == fresh_room(intake_capacity as nat, sub_capacity as nat, history_capacity as nat),
    {
        let r = Room {
            alive: Vec::new(),
            delivered: Ghost(Seq::empty()),
            pending: Vec::new(),
            history: History::new(history_capacity),
            intake_capacity,
            sub_capacity,
        };
        proof {
            assert(r@ =~~= fresh_room(
                intake_capacity as nat,
                sub_capacity as nat,
                history_capacity as nat,
            ));
        }
        r
    }

    /// Register a new subscriber; the returned slot id identifies it to the
    /// room from now on. Registration is immediately visible to the next
    /// broadcast step.
    pub fn join_subscriber(&mut self) -> (id: usize)
        requires
            old(self).wf(),
        ensures
            final(self).wf(),
            final(self)@ == join_model(old(self)@),
            id == old(self)@.subs.len(),
    {
        let ghost d = self.delivered@.push(Seq::empty());
        let id = self.alive.len();
        self.alive.push(true);
        self.delivered = Ghost(d);
        proof {
            assert(self@ =~~= join_model(old(self)@));
        }
        id
    }

    /// One broadcast-engine step: accept the dequeued message `m` and return
    /// the batch of messages that must now be handed, in order, to every live
    /// subscriber. With no live subscriber the batch is empty and `m` is held
    /// in the pending queue; otherwise the batch is the flushed pending queue
    /// followed by `m`. Either way `m` is recorded in the history ring.
    pub fn publish(&mut self, m: Vec<u8>) -> (batch: Vec<Vec<u8>>)
        requires
            old(self).wf(),
        ensures
            final(self).wf(),
            final(self)@ == step(old(self)@, m@),
            has_live(old(self)@) ==> batch.deep_view() == old(self)@.pending.push(m@),
            !has_live(old(self)@) ==> batch@.len() == 0,
    {
        let live = self.any_live();
        if !live {
            let ghost pre_pending = self.pending;
            let m2 = crate::clone_bytes(&m);
            let ghost gm2 = m2;
            self.pending.push(m2);
            proof {
                crate::history::lemma_dv_push(pre_pending, self.pending, gm2);
            }
            self.history.push(m);
            proof {
                assert(self@ =~~= step(old(self)@, m@));
            }
            Vec::new()
        } else {
            let mut batch: Vec<Vec<u8>> = Vec::new();
            core::mem::swap(&mut batch, &mut self.pending);
            let ghost pre_batch = batch;
            let m2 = crate::clone_bytes(&m);
            let ghost gm2 = m2;
            batch.push(m2);
            proof {
                crate::history::lemma_dv_push(pre_batch, batch, gm2);
            }
            self.history.push(m);
            let ghost dv = batch.deep_view();
            let ghost newd = Seq::new(
                self.delivered@.len(),
                |i: int|
                    if self.alive@[i] {
                        self.delivered@[i] + dv
                    } else {
                        self.delivered@[i]
                    },
            );
            self.delivered = Ghost(newd);
            proof {
                assert(batch.deep_view() =~= old(self)@.pending.push(m@));
                assert(self@ =~~= step(old(self)@, m@));
            }
            batch
        }
    }

    /// Mark subscriber slot `id` dead, so later broadcast steps skip it. The
    /// caller invokes this when delivery into the subscriber's channel fails.
    pub fn prune(&mut self, id: usize)
        requires
            old(self).wf(),
            id < old(self)@.subs.len(),
        ensures
            final(self).wf(),
            final(self)@ == prune_model(old(self)@, id as int),
    {
        self.alive[id] = false;
        proof {
            assert(self@ =~~= prune_model(old(self)@, id as int));
        }
    }

    /// Is subscriber slot `id` still live?
    pub fn is_live(&self, id: usize) -> (r: bool)
        requires
            id < self@.subs.len(),
        ensures
            r == self@.subs[id as int].alive,
    {
        self.alive[id]
    }

    /// How many subscriber slots the room has ever handed out.
    pub fn subscriber_count(&self) -> (n: usize)
        ensures
            n == self@.subs.len(),
    {
        self.alive.len()
    }

    /// How many messages are currently held for the first subscriber to come.
    pub fn pending_len(&self) -> (n: usize)
        ensures
            n == self@.pending.len(),
    {
        self.pending.len()
    }

    /// The room's history ring.
    pub fn history(&self) -> (h: &History)
        requires
            self.wf(),
        ensures
            h.wf(),
            h.log() == self@.hist_log,
            h.entries() == self@.hist,
            h.cap() == self@.hist_cap,
    {
        &self.history
    }

    /// Capacity for the room's publish-intake channel.
    pub fn intake_capacity(&self) -> (c: usize)
        ensures
            c == self@.intake_cap,
    {
        self.intake_capacity
    }

    /// Capacity for each subscriber's delivery channel.
    pub fn sub_capacity(&self) -> (c: usize)
        ensures
            c == self@.sub_cap,
    {
        self.sub_capacity
    }

    /// Does the room currently have at least one live subscriber?
    pub fn any_live(&self) -> (r: bool)
        ensures
            r == has_live(self@),
    {
        let mut i: usize = 0;
        while i < self.alive.len()
            invariant
                i <= self.alive@.len(),
                forall|j: int| 0 <= j < i ==> !self.alive@[j],
            decreases self.alive@.len() - i,
        {
            if self.alive[i] {
                proof {
                    assert(self@.subs[i as int].alive);
                }
                return true;
            }
            i += 1;
        }
        proof {
            assert(forall|j: int| 0 <= j < self@.subs.len() ==> !self@.subs[j].alive);
        }
        false
    }
}

} // verus!
