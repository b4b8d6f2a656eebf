//! The room registry: a growing map from tag to room with idempotent
//! get-or-create, plus room-addressed broadcast operations.

use vstd::prelude::*;

use crate::bytes_eq;
use crate::protocol::{parse_negotiation, parse_spec, ConnState, Role};
use crate::room::{fresh_room, has_live, join_model, prune_model, step, Room, RoomModel};

verus! {

/// Abstract state of the registry: rooms in creation order, each under the
/// tag at the same position, plus the capacities every new room is built
/// with.
#[verifier::ext_equal]
pub struct ManagerModel {
    pub tags: Seq<Seq<u8>>,
    pub rooms: Seq<RoomModel>,
    pub intake_cap: nat,
    pub sub_cap: nat,
    pub hist_cap: nat,
}

/// The registry invariant visible to callers: one room per tag, and a tag
/// never names two rooms.
pub open spec fn manager_inv(mm: ManagerModel) -> bool {
    &&& mm.tags.len() == mm.rooms.len()
    &&& forall|i: int, j: int| 0 <= i < j < mm.tags.len() ==> mm.tags[i] != mm.tags[j]
}

/// Is some room registered under `tag`?
pub open spec fn has_tag(mm: ManagerModel, tag: Seq<u8>) -> bool {
    exists|i: int| 0 <= i < mm.tags.len() && mm.tags[i] == tag
}

/// The index of the room registered under `tag` (meaningful when
/// `has_tag(mm, tag)` holds; under `manager_inv` it is unique).
pub open spec fn tag_index(mm: ManagerModel, tag: Seq<u8>) -> int {
    choose|i: int| 0 <= i < mm.tags.len() && mm.tags[i] == tag
}

/// Get-or-create on the abstract state: an existing tag resolves to its room
/// and changes nothing; a new tag appends one fresh room under it.
pub open spec fn create_model(mm: ManagerModel, tag: Seq<u8>) -> ManagerModel {
    if has_tag(mm, tag) {
        mm
    } else {
        ManagerModel {
            tags: mm.tags.push(tag),
            rooms: mm.rooms.push(fresh_room(mm.intake_cap, mm.sub_cap, mm.hist_cap)),
            ..mm
        }
    }
}

/// The index get-or-create resolves `tag` to.
pub open spec fn create_index(mm: ManagerModel, tag: Seq<u8>) -> int {
    if has_tag(mm, tag) {
        tag_index(mm, tag)
    } else {
        mm.rooms.len() as int
    }
}

/// One broadcast-engine step inside room `i`; every other room is untouched.
pub open spec fn manager_publish(mm: ManagerModel, i: int, m: Seq<u8>) -> ManagerModel {
    ManagerModel { rooms: mm.rooms.update(i, step(mm.rooms[i], m)), ..mm }
}

/// A new subscriber slot in room `i`; every other room is untouched.
pub open spec fn manager_join(mm: ManagerModel, i: int) -> ManagerModel {
    ManagerModel { rooms: mm.rooms.update(i, join_model(mm.rooms[i])), ..mm }
}

/// Subscriber slot `s` of room `i` marked dead; every other room is untouched.
pub open spec fn manager_prune(mm: ManagerModel, i: int, s: int) -> ManagerModel {
    ManagerModel { rooms: mm.rooms.update(i, prune_model(mm.rooms[i], s)), ..mm }
}

/// At most one room per tag, ever: under the registry invariant two
/// registered positions carrying the same tag are the same position, so all
/// callers racing on one tag resolve to one identical room (and so to the one
/// broadcast engine bound to it).
pub proof fn lemma_one_room_per_tag(mm: ManagerModel, i: int, j: int)
    requires
        manager_inv(mm),
        0 <= i < mm.tags.len(),
        0 <= j < mm.tags.len(),
        mm.tags[i] == mm.tags[j],
    ensures
        i == j,
{
    if i < j {
        assert(mm.tags[i] != mm.tags[j]);
    }
    if j < i {
        assert(mm.tags[j] != mm.tags[i]);
    }
}

/// Idempotent room creation: resolving a tag a second time returns the same
/// room index as the first time and changes nothing, so any number of
/// get-or-create calls for one tag yield one single room.
pub proof fn lemma_create_idempotent(mm: ManagerModel, tag: Seq<u8>)
    requires
        manager_inv(mm),
    ensures
        create_model(create_model(mm, tag), tag) == create_model(mm, tag),
        create_index(create_model(mm, tag), tag) == create_index(mm, tag),
{
    if !has_tag(mm, tag) {
        let mm1 = create_model(mm, tag);
        let l = mm.tags.len() as int;
        assert(mm1.tags[l] == tag);
        assert(has_tag(mm1, tag));
        let c = tag_index(mm1, tag);
        assert(0 <= c < mm1.tags.len() && mm1.tags[c] == tag);
        if c < l {
            assert(mm1.tags[c] == mm.tags[c]);
            assert(has_tag(mm, tag));
        }
        assert(c == l);
    }
}

/// Isolation: a broadcast step inside one room leaves every other room — and
/// with it every subscriber of every other room — exactly as it was.
pub proof fn lemma_publish_isolation(mm: ManagerModel, a: int, b: int, m: Seq<u8>)
    requires
        0 <= a < mm.rooms.len(),
        0 <= b < mm.rooms.len(),
        b != a,
    ensures
        manager_publish(mm, a, m).rooms[b] == mm.rooms[b],
{
}

/// The process-wide room namespace. Rooms are created lazily on first
/// reference, exactly once per tag, and are never evicted.
pub struct RoomManager {
    tags: Vec<Vec<u8>>,
    rooms: Vec<Room>,
    intake_capacity: usize,
    sub_capacity: usize,
    history_capacity: usize,
}

impl View for RoomManager {
    type V = ManagerModel;

    closed spec fn view(&self) -> ManagerModel {
        ManagerModel {
            tags: self.tags.deep_view(),
            rooms: Seq::new(self.rooms@.len(), |i: int| self.rooms@[i]@),
            intake_cap: self.intake_capacity as nat,
            sub_cap: self.sub_capacity as nat,
            hist_cap: self.history_capacity as nat,
        }
    }
}

impl RoomManager {
    pub closed spec fn wf(self) -> bool {
        &&& manager_inv(self@)
        &&& forall|i: int| 0 <= i < self.rooms@.len() ==> self.rooms@[i].wf()
    }

    pub fn new(intake_capacity: usize, sub_capacity: usize, history_capacity: usize) -> (r:
        RoomManager)
        ensures
            r.wf(),
            r@.tags == Seq::<Seq<u8>>::empty(),
            r@.rooms == Seq::<RoomModel>::empty(),
            r@.intake_cap == intake_capacity,
            r@.sub_cap == sub_capacity,
            r@.hist_cap == history_capacity,
    {
        let r = RoomManager {
            tags: Vec::new(),
            rooms: Vec::new(),
            intake_capacity,
            sub_capacity,
            history_capacity,
        };
        proof {
            assert(r@.tags =~= Seq::<Seq<u8>>::empty());
            assert(r@.rooms =~= Seq::<RoomModel>::empty());
        }
        r
    }

    /// Find the room registered under `tag`, if any.
    fn find(&self, tag: &[u8]) -> (r: Option<usize>)
        ensures
            match r {
                Some(i) => 0 <= i < self@.tags.len() && self@.tags[i as int] == tag@,
                None => !has_tag(self@, tag@),
            },
    {
        let mut i: usize = 0;
        while i < self.tags.len()
            invariant
                i <= self.tags@.len(),
                forall|j: int| 0 <= j < i ==> self@.tags[j] != tag@,
            decreases self.tags@.len() - i,
        {
            let hit = bytes_eq(self.tags[i].as_slice(), tag);
            proof {
                assert(self.tags@[i as int].deep_view() =~= self.tags@[i as int]@);
            }
            if hit {
                return Some(i);
            }
            i += 1;
        }
        None
    }

    /// Get-or-create: resolve `tag` to its room, creating the room on first
    /// reference. Check and construct-and-insert form one critical section in
    /// the caller's hands (`&mut self`), so no two rooms can ever be created
    /// for one tag.
    pub fn create(&mut self, tag: &[u8]) -> (idx: usize)
        requires
            old(self).wf(),
        ensures
            final(self).wf(),
            final(self)@ == create_model(old(self)@, tag@),
            idx as int == create_index(old(self)@, tag@),
            idx < final(self)@.rooms.len(),
            final(self)@.tags[idx as int] == tag@,
            has_tag(final(self)@, tag@),
    {
        let found = self.find(tag);
        let idx = match found {
            Some(i) => {
                proof {
                    assert(has_tag(self@, tag@));
                    let c = tag_index(self@, tag@);
                    assert(0 <= c < self@.tags.len() && self@.tags[c] == tag@);
                    assert(c == i as int);
                }
                i
            },
            None => {
                let idx = self.rooms.len();
                let room = Room::new(
                    self.intake_capacity,
                    self.sub_capacity,
                    self.history_capacity,
                );
                let mut tag_copy: Vec<u8> = Vec::new();
                tag_copy.extend_from_slice(tag);
                proof {
                    assert forall|k: int| 0 <= k < tag@.len() implies tag_copy@[k] == tag@[k] by {
                        assert(cloned::<u8>(tag@[k], tag_copy@[k]));
                    }
                    assert(tag_copy@ =~= tag@);
                }
                let ghost g_tag_copy = tag_copy;
                self.tags.push(tag_copy);
                self.rooms.push(room);
                proof {
                    crate::history::lemma_dv_push(old(self).tags, self.tags, g_tag_copy);
                    assert(!has_tag(old(self)@, tag@));
                    assert(self@ =~~= create_model(old(self)@, tag@));
                    assert forall|a: int, b: int|
                        0 <= a < b < self@.tags.len() implies self@.tags[a] != self@.tags[b] by {
                        if b == self@.tags.len() - 1 {
                            assert(self@.tags[b] == tag@);
                            assert(self@.tags[a] == old(self)@.tags[a]);
                        }
                    }
                }
                idx
            },
        };
        proof {
            assert(self@.tags[idx as int] == tag@);
            assert(has_tag(self@, tag@));
        }
        idx
    }

    /// One broadcast-engine step inside room `idx`: the returned batch is
    /// what must now be handed, in order, to every live subscriber of that
    /// room (see [`Room::publish`]). No other room is touched.
    pub fn publish(&mut self, idx: usize, m: Vec<u8>) -> (batch: Vec<Vec<u8>>)
        requires
            old(self).wf(),
            idx < old(self)@.rooms.len(),
        ensures
            final(self).wf(),
            final(self)@ == manager_publish(old(self)@, idx as int, m@),
            has_live(old(self)@.rooms[idx as int]) ==> batch.deep_view() == old(
                self,
            )@.rooms[idx as int].pending.push(m@),
            !has_live(old(self)@.rooms[idx as int]) ==> batch@.len() == 0,
    {
        let room = &mut self.rooms[idx];
        let batch = room.publish(m);
        proof {
            assert(self@ =~~= manager_publish(old(self)@, idx as int, m@));
        }
        batch
    }

    /// Register a new subscriber slot in room `idx` and return its id. No
    /// other room is touched.
    pub fn join_subscriber(&mut self, idx: usize) -> (id: usize)
        requires
            old(self).wf(),
            idx < old(self)@.rooms.len(),
        ensures
            final(self).wf(),
            final(self)@ == manager_join(old(self)@, idx as int),
            id == old(self)@.rooms[idx as int].subs.len(),
    {
        let room = &mut self.rooms[idx];
        let id = room.join_subscriber();
        proof {
            assert(self@ =~~= manager_join(old(self)@, idx as int));
        }
        id
    }

    /// Mark subscriber slot `sub` of room `idx` dead after a failed delivery.
    /// No other room is touched.
    pub fn prune(&mut self, idx: usize, sub: usize)
        requires
            old(self).wf(),
            idx < old(self)@.rooms.len(),
            sub < old(self)@.rooms[idx as int].subs.len(),
        ensures
            final(self).wf(),
            final(self)@ == manager_prune(old(self)@, idx as int, sub as int),
    {
        let room = &mut self.rooms[idx];
        room.prune(sub);
        proof {
            assert(self@ =~~= manager_prune(old(self)@, idx as int, sub as int));
        }
    }

    /// One negotiation step of a connection handler: feed it one input line
    /// read while still negotiating. A line that is not a valid negotiation
    /// changes nothing and leaves the connection negotiating. A valid line
    /// resolves (creating it on first reference) the room named by its tag
    /// and either hands the connection to it as a publisher, or registers a
    /// new subscriber slot and hands the connection that.
    pub fn negotiate(&mut self, line: &[u8]) -> (st: ConnState)
        requires
            old(self).wf(),
        ensures
            final(self).wf(),
            match parse_spec(line@) {
                None => final(self)@ == old(self)@ && st == ConnState::Negotiating,
                Some(rt) => {
                    let mm = create_model(old(self)@, rt.1);
                    let i = create_index(old(self)@, rt.1);
                    match rt.0 {
                        Role::Publisher => final(self)@ == mm && st == (ConnState::Publishing {
                            room: i as usize,
                        }),
                        Role::Subscriber => final(self)@ == manager_join(mm, i) && st
                            == (ConnState::Subscribing {
                            room: i as usize,
                            sub: mm.rooms[i].subs.len() as usize,
                        }),
                    }
                },
            },
    {
        let parsed = parse_negotiation(line);
        match parsed {
            None => ConnState::Negotiating,
            Some((role, tag)) => {
                let room = self.create(tag.as_slice());
                match role {
                    Role::Publisher => ConnState::Publishing { room },
                    Role::Subscriber => {
                        let sub = self.join_subscriber(room);
                        ConnState::Subscribing { room, sub }
                    },
                }
            },
        }
    }

    /// How many rooms exist.
    pub fn room_count(&self) -> (n: usize)
        ensures
            n == self@.rooms.len(),
    {
        self.rooms.len()
    }

    /// Read access to room `idx`, e.g. to inspect its history ring.
    pub fn room(&self, idx: usize) -> (r: &Room)
        requires
            self.wf(),
            idx < self@.rooms.len(),
        ensures
            r.wf(),
            r@ == self@.rooms[idx as int],
    {
        &self.rooms[idx]
    }

    /// Capacity every room's publish-intake channel is built with.
    pub fn intake_capacity(&self) -> (c: usize)
        ensures
            c == self@.intake_cap,
    {
        self.intake_capacity
    }

    /// Capacity every subscriber delivery channel is built with.
    pub fn sub_capacity(&self) -> (c: usize)
        ensures
            c == self@.sub_cap,
    {
        self.sub_capacity
    }
}

} // verus!
