//! Bounded ring of the most recently broadcast messages of one room.

use vstd::prelude::*;

verus! {

/// The most recent `cap` elements of `s`, oldest first; all of `s` when it is
/// no longer than `cap`.
pub open spec fn recent(s: Seq<Seq<u8>>, cap: nat) -> Seq<Seq<u8>> {
    if s.len() <= cap {
        s
    } else {
        s.skip(s.len() - cap)
    }
}

pub proof fn lemma_dv_push(pre: Vec<Vec<u8>>, post: Vec<Vec<u8>>, m: Vec<u8>)
    requires
        post@ == pre@.push(m),
    ensures
        post.deep_view() == pre.deep_view().push(m@),
{
    assert forall|i: int| 0 <= i < post.deep_view().len() implies post.deep_view()[i]
        == pre.deep_view().push(m@)[i] by {
        if i < pre@.len() {
            assert(post@[i] == pre@[i]);
        } else {
            assert(post@[i] == m);
            assert(m.deep_view() =~= m@);
        }
    }
    assert(post.deep_view() =~= pre.deep_view().push(m@));
}

proof fn lemma_dv_remove_front(pre: Vec<Vec<u8>>, post: Vec<Vec<u8>>)
    requires
        pre@.len() > 0,
        post@ == pre@.remove(0),
    ensures
        post.deep_view() == pre.deep_view().remove(0),
{
    assert forall|i: int| 0 <= i < post.deep_view().len() implies post.deep_view()[i]
        == pre.deep_view().remove(0)[i] by {
        assert(post@[i] == pre@[i + 1]);
    }
    assert(post.deep_view() =~= pre.deep_view().remove(0));
}

/// A write-only audit log with ring semantics: every broadcast message is
/// recorded, and once `capacity` entries are held the oldest is evicted to
/// make room for the newest.
pub struct History {
    items: Vec<Vec<u8>>,
    capacity: usize,
    log: Ghost<Seq<Seq<u8>>>,
}

impl History {
    /// Every message ever recorded, oldest first.
    pub closed spec fn log(self) -> Seq<Seq<u8>> {
        self.log@
    }

    /// The configured bound on how many records are retained.
    pub closed spec fn cap(self) -> nat {
        self.capacity as nat
    }

    /// What the buffer currently holds, oldest first.
    pub closed spec fn entries(self) -> Seq<Seq<u8>> {
        self.items.deep_view()
    }

    /// Ring discipline: the buffer holds exactly the most recent `cap()`
    /// records, oldest first.
    pub open spec fn wf(self) -> bool {
        self.entries() == recent(self.log(), self.cap())
    }

    pub fn new(capacity: usize) -> (h: History)
        ensures
            h.wf(),
            h.cap() == capacity,
            h.log() == Seq::<Seq<u8>>::empty(),
    {
        let h = History { items: Vec::new(), capacity, log: Ghost(Seq::empty()) };
        proof {
            assert(h.entries() =~= recent(h.log(), h.cap()));
        }
        h
    }

    /// Record one more message, evicting the oldest entry when the buffer is
    /// already at capacity.
    pub fn push(&mut self, m: Vec<u8>)
        requires
            old(self).wf(),
        ensures
            final(self).wf(),
            final(self).cap() == old(self).cap(),
            final(self).log() == old(self).log().push(m@),
    {
        proof {
            assert(m.deep_view() =~= m@);
        }
        let ghost new_log = old(self).log@.push(m@);
        let ghost pre_items = self.items;
        let ghost old_log = old(self).log@;
        let ghost cap = self.capacity as nat;
        if self.capacity > 0 {
            if self.items.len() == self.capacity {
                self.items.remove(0);
                proof {
                    lemma_dv_remove_front(pre_items, self.items);
                }
            }
            let ghost mid_items = self.items;
            self.items.push(m);
            proof {
                lemma_dv_push(mid_items, self.items, m);
            }
        }
        self.log = Ghost(new_log);
        proof {
            if cap == 0 {
                assert(self.items.deep_view() == recent(old_log, cap));
                assert(self.items.deep_view() =~= recent(new_log, cap));
            } else if pre_items@.len() == cap {
                // the ring was full: the oldest entry was evicted
                let dv0 = pre_items.deep_view();
                assert(dv0 == recent(old_log, cap));
                assert(dv0.len() == cap);
                assert(old_log.len() >= cap);
                let l = old_log.len() as int;
                assert(self.items.deep_view() == dv0.remove(0).push(m@));
                assert forall|i: int| 0 <= i < cap implies dv0.remove(0).push(m@)[i]
                    == recent(new_log, cap)[i] by {
                    assert(recent(new_log, cap) == new_log.skip(l + 1 - cap));
                    if i < cap - 1 {
                        assert(dv0.remove(0)[i] == dv0[i + 1]);
                        assert(dv0[i + 1] == old_log.skip(l - cap)[i + 1]);
                        assert(old_log.skip(l - cap)[i + 1] == old_log[l - cap + i + 1]);
                        assert(new_log[l + 1 - cap + i] == old_log[l - cap + i + 1]);
                    } else {
                        assert(new_log[l + 1 - cap + i] == new_log[l]);
                    }
                }
                assert(self.items.deep_view() =~= recent(new_log, cap));
            } else {
                // the ring had room: everything recorded so far is retained
                let dv0 = pre_items.deep_view();
                assert(dv0 == recent(old_log, cap));
                assert(dv0.len() < cap);
                assert(old_log.len() < cap);
                assert(dv0 =~= old_log);
                assert(self.items.deep_view() =~= recent(new_log, cap));
            }
        }
    }

    /// How many records the buffer currently holds.
    pub fn len(&self) -> (n: usize)
        ensures
            n == self.entries().len(),
    {
        self.items.len()
    }

    /// The `i`-th retained record, oldest first.
    pub fn get(&self, i: usize) -> (m: &Vec<u8>)
        requires
            i < self.entries().len(),
        ensures
            m@ == self.entries()[i as int],
    {
        let m = &self.items[i];
        proof {
            assert(m.deep_view() =~= m@);
        }
        m
    }
}

} // verus!
