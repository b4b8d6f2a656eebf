//! A minimal topic-based publish/subscribe broker core.
//!
//! Rooms are named broadcast domains created lazily on first reference.
//! Publishers feed opaque byte messages into a room; the room's broadcast
//! step fans each message out to every live subscriber in arrival order,
//! holds messages published while no subscriber is attached, and keeps a
//! bounded ring of recent messages. The surrounding transport (sockets,
//! channels, tasks) is not part of this crate: callers drive the verified
//! state here and perform the actual byte shuffling themselves.

pub mod history;
pub mod protocol;
pub mod registry;
pub mod room;

use vstd::prelude::*;

verus! {

/// Byte-for-byte equality of two byte strings.
pub fn bytes_eq(a: &[u8], b: &[u8]) -> (r: bool)
    ensures
        r == (a@ == b@),
{
    if a.len() != b.len() {
        proof {
            assert(a@.len() != b@.len());
        }
        return false;
    }
    let mut i: usize = 0;
    while i < a.len()
        invariant
            i <= a@.len(),
            a@.len() == b@.len(),
            forall|j: int| 0 <= j < i ==> a@[j] == b@[j],
        decreases a@.len() - i,
    {
        if a[i] != b[i] {
            return false;
        }
        i += 1;
    }
    proof {
        assert(a@ =~= b@);
    }
    true
}

/// A copy of one message, byte for byte.
pub fn clone_bytes(m: &Vec<u8>) -> (r: Vec<u8>)
    ensures
        r@ == m@,
{
    let r = m.clone();
    proof {
        assert forall|i: int| 0 <= i < m@.len() implies r@[i] == m@[i] by {
            assert(cloned::<u8>(m@[i], r@[i]));
        }
        assert(r@ =~= m@);
    }
    r
}

} // verus!
