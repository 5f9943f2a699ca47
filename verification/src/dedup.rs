//! Bounded, order-preserving windows of recently seen `(sequence, sender)`
//! keys. One window suppresses duplicate processing on the receive side, a
//! second prevents relay loops; they differ only in capacity. The oldest
//! entry is evicted first when a window is full.

use vstd::prelude::*;

use crate::message::ids_match;

verus! {

/// Whether the window records the transmission from `sender` with `sequence`.
pub open spec fn window_has(w: Seq<(u16, [u8; 6])>, sequence: u16, sender: Seq<u8>) -> bool {
    exists|i: int| 0 <= i < w.len() && (#[trigger] w[i]).0 == sequence && w[i].1@ == sender
}

/// The window after recording a key at capacity `cap`: the oldest entry is
/// evicted when the window is full, and the key is appended.
pub open spec fn window_record(
    w: Seq<(u16, [u8; 6])>,
    sequence: u16,
    sender: [u8; 6],
    cap: int,
) -> Seq<(u16, [u8; 6])> {
    (if w.len() >= cap {
        w.drop_first()
    } else {
        w
    }).push((sequence, sender))
}

/// Relates a window to the window it came from by recording `(sequence,
/// sender)`: all but the newest entry are the old window, less its oldest
/// entry when it was full.
pub open spec fn window_recorded(
    pre: Seq<(u16, [u8; 6])>,
    post: Seq<(u16, [u8; 6])>,
    sequence: u16,
    sender: Seq<u8>,
    cap: int,
) -> bool {
    &&& post.len() == (if pre.len() >= cap {
        pre.len()
    } else {
        pre.len() + 1
    })
    &&& post.drop_last() == (if pre.len() >= cap {
        pre.drop_first()
    } else {
        pre
    })
    &&& post.last().0 == sequence
    &&& post.last().1@ == sender
}

/// Whether the window holds the given key.
pub fn window_contains(w: &Vec<(u16, [u8; 6])>, sequence: u16, sender: &[u8; 6]) -> (r: bool)
    ensures
        r == window_has(w@, sequence, sender@),
{
    let mut i: usize = 0;
    while i < w.len()
        invariant
            i <= w@.len(),
            forall|j: int| 0 <= j < i ==> !((#[trigger] w@[j]).0 == sequence && w@[j].1@ == sender@),
        decreases w@.len() - i,
    {
        let entry = &w[i];
        if entry.0 == sequence && ids_match(&entry.1, sender) {
            return true;
        }
        i = i + 1;
    }
    false
}

/// Record a key, evicting the oldest entry when the window is at capacity.
pub fn window_insert(w: &mut Vec<(u16, [u8; 6])>, sequence: u16, sender: [u8; 6], cap: usize)
    requires
        cap >= 1,
        old(w)@.len() <= cap,
    ensures
        final(w)@ == window_record(old(w)@, sequence, sender, cap as int),
        window_recorded(old(w)@, final(w)@, sequence, sender@, cap as int),
        final(w)@.len() <= cap,
        window_has(final(w)@, sequence, sender@),
{
    if w.len() >= cap {
        let _oldest = w.remove(0);
        proof {
            assert(w@ =~= old(w)@.drop_first());
        }
    }
    w.push((sequence, sender));
    proof {
        assert(w@.drop_last() =~= (if old(w)@.len() >= cap {
            old(w)@.drop_first()
        } else {
            old(w)@
        }));
        assert(w@.last() == (sequence, sender));
    }
}

} // verus!
