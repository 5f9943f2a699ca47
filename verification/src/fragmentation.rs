//! Fragment reassembly engine.
//!
//! Inbound fragments are collected per `(sender, sequence)` key in a bounded
//! table of reassembly buffers. When every fragment of a message has arrived,
//! the buffer is removed and the fragments are concatenated in index order.
//! When the table is full and a new key arrives, the oldest entry is evicted
//! and its partial data discarded, so memory use stays bounded.

use vstd::prelude::*;
use vstd::pervasive::VecAdditionalExecFns;

use crate::message::{
    frag_slice, ids_match, spec_concat_frags, spec_fragment_count, lemma_fragment_count_bounds,
    lemma_fragments_cover_payload, push_bytes, Message, MessageHeader, MAX_MESSAGE_SIZE,
    MAX_PAYLOAD_SIZE,
};

verus! {

/// Most in-flight multi-fragment messages tracked at once.
pub const MAX_CONCURRENT_MESSAGES: usize = 4;

/// Most fragments a single message may be split into.
pub const MAX_FRAGMENTS_PER_MESSAGE: usize = 8;

/// Identity of an in-flight multi-fragment transmission.
#[derive(Clone, Copy, Debug)]
pub struct FragmentKey {
    pub sender_id: [u8; 6],
    pub sequence: u16,
}

impl FragmentKey {
    pub fn new(sender_id: [u8; 6], sequence: u16) -> (k: FragmentKey)
        ensures
            k.sender_id == sender_id,
            k.sequence == sequence,
    {
        FragmentKey { sender_id, sequence }
    }
}

impl PartialEq for FragmentKey {
    fn eq(&self, other: &Self) -> (r: bool) {
        ids_match(&self.sender_id, &other.sender_id) && self.sequence == other.sequence
    }
}

impl Eq for FragmentKey {

}

impl vstd::std_specs::cmp::PartialEqSpecImpl for FragmentKey {
    open spec fn obeys_eq_spec() -> bool {
        true
    }

    open spec fn eq_spec(&self, other: &FragmentKey) -> bool {
        self.sender_id@ == other.sender_id@ && self.sequence == other.sequence
    }
}

/// Whether a key identifies the transmission from `sender` with `seq`.
pub open spec fn key_matches(k: FragmentKey, sender: Seq<u8>, seq: u16) -> bool {
    k.sender_id@ == sender && k.sequence == seq
}

/// The contents of one reassembly slot, empty bytes when nothing is stored.
pub open spec fn opt_bytes(slot: Option<Seq<u8>>) -> Seq<u8> {
    match slot {
        Some(d) => d,
        None => Seq::empty(),
    }
}

/// The abstract view of a buffer's slot array: what each slot holds.
pub open spec fn slots_model(frags: Seq<Option<Vec<u8>>>) -> Seq<Option<Seq<u8>>> {
    Seq::new(
        frags.len(),
        |i: int|
            match frags[i] {
                Some(v) => Some(v@),
                None => None,
            },
    )
}

/// The slot array of a buffer that has received nothing yet.
pub open spec fn empty_slots() -> Seq<Option<Seq<u8>>> {
    Seq::new(MAX_FRAGMENTS_PER_MESSAGE as nat, |i: int| None)
}

/// How many of the first `k` slots are filled.
pub open spec fn slot_count(slots: Seq<Option<Seq<u8>>>, k: int) -> int
    decreases k,
{
    if k <= 0 {
        0
    } else {
        slot_count(slots, k - 1) + if slots[k - 1] is Some {
            1int
        } else {
            0int
        }
    }
}

/// Whether delivering fragment `i` with `data` to a buffer expecting `total`
/// fragments stores it: the index is in range, the slot is still empty, and
/// the data fits in one fragment.
pub open spec fn delivery_stored(
    slots: Seq<Option<Seq<u8>>>,
    total: int,
    i: int,
    data: Seq<u8>,
) -> bool {
    &&& 0 <= i < total
    &&& i < MAX_FRAGMENTS_PER_MESSAGE
    &&& slots[i] is None
    &&& data.len() <= MAX_PAYLOAD_SIZE
}

/// The slot array after one delivery: the slot is filled when the delivery
/// stores, and nothing changes otherwise (duplicates and rejects are no-ops).
pub open spec fn apply_delivery(
    slots: Seq<Option<Seq<u8>>>,
    total: int,
    i: int,
    data: Seq<u8>,
) -> Seq<Option<Seq<u8>>> {
    if delivery_stored(slots, total, i, data) {
        slots.update(i, Some(data))
    } else {
        slots
    }
}

/// The slot array after delivering, in order, the fragments of payload `p`
/// whose indices are listed in `ds`.
pub open spec fn apply_fragment_deliveries(
    slots: Seq<Option<Seq<u8>>>,
    total: int,
    p: Seq<u8>,
    ds: Seq<int>,
) -> Seq<Option<Seq<u8>>>
    decreases ds.len(),
{
    if ds.len() == 0 {
        slots
    } else {
        apply_fragment_deliveries(
            apply_delivery(slots, total, ds[0], frag_slice(p, ds[0])),
            total,
            p,
            ds.drop_first(),
        )
    }
}

/// The first `k` slots concatenated in index order.
pub open spec fn spec_assembled(slots: Seq<Option<Seq<u8>>>, k: int) -> Seq<u8>
    decreases k,
{
    if k <= 0 {
        Seq::empty()
    } else {
        spec_assembled(slots, k - 1) + opt_bytes(slots[k - 1])
    }
}

proof fn lemma_slot_count_bounds(slots: Seq<Option<Seq<u8>>>, k: int)
    ensures
        0 <= slot_count(slots, k) <= if k >= 0 {
            k
        } else {
            0
        },
    decreases k,
{
    if k > 0 {
        lemma_slot_count_bounds(slots, k - 1);
    }
}

proof fn lemma_slot_count_all_none(slots: Seq<Option<Seq<u8>>>, k: int)
    requires
        forall|i: int| 0 <= i < k ==> slots[i] is None,
    ensures
        slot_count(slots, k) == 0,
    decreases k,
{
    if k > 0 {
        lemma_slot_count_all_none(slots, k - 1);
    }
}

proof fn lemma_slot_count_update(slots: Seq<Option<Seq<u8>>>, k: int, i: int, d: Seq<u8>)
    requires
        0 <= i < slots.len(),
        k <= slots.len(),
        slots[i] is None,
    ensures
        slot_count(slots.update(i, Some(d)), k) == slot_count(slots, k) + if i < k {
            1int
        } else {
            0int
        },
    decreases k,
{
    if k > 0 {
        lemma_slot_count_update(slots, k - 1, i, d);
    }
}

/// When the first `k` slots hold `k` fragments, every one of them is filled.
proof fn lemma_slot_count_full(slots: Seq<Option<Seq<u8>>>, k: int)
    requires
        slot_count(slots, k) == k,
    ensures
        forall|i: int| 0 <= i < k ==> slots[i] is Some,
    decreases k,
{
    if k > 0 {
        lemma_slot_count_bounds(slots, k - 1);
        lemma_slot_count_full(slots, k - 1);
    }
}

/// Filled slots beyond `k1` contribute nothing below `k1`.
proof fn lemma_slot_count_extend(slots: Seq<Option<Seq<u8>>>, k1: int, k2: int)
    requires
        0 <= k1 <= k2,
        forall|i: int| k1 <= i < k2 ==> slots[i] is None,
    ensures
        slot_count(slots, k2) == slot_count(slots, k1),
    decreases k2 - k1,
{
    if k2 > k1 {
        lemma_slot_count_extend(slots, k1, k2 - 1);
    }
}

proof fn lemma_assembled_len_monotonic(slots: Seq<Option<Seq<u8>>>, k1: int, k2: int)
    requires
        k1 <= k2,
    ensures
        spec_assembled(slots, k1).len() <= spec_assembled(slots, k2).len(),
    decreases k2 - k1,
{
    if k1 < k2 {
        lemma_assembled_len_monotonic(slots, k1, k2 - 1);
    }
}

/// Reassembly state for one in-flight transmission: the header of its first
/// frame, one optional payload slot per fragment index, and progress counts.
pub struct FragmentBuffer {
    pub header: MessageHeader,
    pub fragments: Vec<Option<Vec<u8>>>,
    pub received_count: u8,
    pub total_expected: u8,
}

impl FragmentBuffer {
    /// What each fragment slot holds.
    pub open spec fn slots(self) -> Seq<Option<Seq<u8>>> {
        slots_model(self.fragments@)
    }

    /// The buffer's internal invariant: a fixed slot array, a count that
    /// matches the filled slots, slots only below the expected total, and
    /// no slot larger than one fragment.
    pub open spec fn wf(self) -> bool {
        &&& self.fragments@.len() == MAX_FRAGMENTS_PER_MESSAGE
        &&& self.received_count as int == slot_count(self.slots(), MAX_FRAGMENTS_PER_MESSAGE as int)
        &&& forall|i: int|
            0 <= i < MAX_FRAGMENTS_PER_MESSAGE && i >= self.total_expected ==> self.slots()[i] is None
        &&& forall|i: int|
            0 <= i < MAX_FRAGMENTS_PER_MESSAGE ==> opt_bytes(#[trigger] self.slots()[i]).len()
                <= MAX_PAYLOAD_SIZE
    }

    pub fn new(header: MessageHeader) -> (b: FragmentBuffer)
        ensures
            b.wf(),
            b.header == header,
            b.received_count == 0,
            b.total_expected == header.total_fragments,
            b.slots() == empty_slots(),
    {
        let mut fragments: Vec<Option<Vec<u8>>> = Vec::new();
        let mut i: usize = 0;
        while i < MAX_FRAGMENTS_PER_MESSAGE
            invariant
                i <= MAX_FRAGMENTS_PER_MESSAGE,
                fragments@.len() == i,
                forall|j: int| 0 <= j < i ==> fragments@[j] is None,
            decreases MAX_FRAGMENTS_PER_MESSAGE - i,
        {
            fragments.push(None);
            i = i + 1;
        }
        let b = FragmentBuffer {
            header,
            fragments,
            received_count: 0,
            total_expected: header.total_fragments,
        };
        proof {
            assert(b.slots() =~= empty_slots());
            lemma_slot_count_all_none(b.slots(), MAX_FRAGMENTS_PER_MESSAGE as int);
        }
        b
    }

    /// Record one inbound fragment. A duplicate index is a no-op; an index
    /// out of range or an oversized payload is rejected. Returns whether the
    /// message is now complete.
    pub fn add_fragment(&mut self, index: u8, data: &[u8]) -> (r: Result<bool, ()>)
        requires
            old(self).wf(),
        ensures
            final(self).wf(),
            final(self).header == old(self).header,
            final(self).total_expected == old(self).total_expected,
            final(self).slots() == apply_delivery(
                old(self).slots(),
                old(self).total_expected as int,
                index as int,
                data@,
            ),
            final(self).received_count as int == old(self).received_count + if delivery_stored(
                old(self).slots(),
                old(self).total_expected as int,
                index as int,
                data@,
            ) {
                1int
            } else {
                0int
            },
            r is Err <==> (index >= old(self).total_expected || index as int
                >= MAX_FRAGMENTS_PER_MESSAGE || (old(self).slots()[index as int] is None && data@.len()
                > MAX_PAYLOAD_SIZE)),
            r matches Ok(complete) ==> (complete <==> (delivery_stored(
                old(self).slots(),
                old(self).total_expected as int,
                index as int,
                data@,
            ) && old(self).received_count + 1 == old(self).total_expected)),
    {
        if index >= self.total_expected || index as usize >= MAX_FRAGMENTS_PER_MESSAGE {
            return Err(());
        }
        if self.fragments[index as usize].is_some() {
            return Ok(false);
        }
        if data.len() > MAX_PAYLOAD_SIZE {
            return Err(());
        }

        let mut fragment_data: Vec<u8> = Vec::new();
        push_bytes(&mut fragment_data, data);
        proof {
            lemma_slot_count_bounds(self.slots(), MAX_FRAGMENTS_PER_MESSAGE as int);
        }
        self.fragments.set(index as usize, Some(fragment_data));
        self.received_count = self.received_count + 1;
        proof {
            assert(self.slots() =~= old(self).slots().update(index as int, Some(data@)));
            lemma_slot_count_update(
                old(self).slots(),
                MAX_FRAGMENTS_PER_MESSAGE as int,
                index as int,
                data@,
            );
        }
        Ok(self.received_count == self.total_expected)
    }

    /// Concatenate the stored fragments in index order into one message,
    /// consuming the buffer. Fails when the buffer is not complete or the
    /// concatenation would exceed the message size limit.
    pub fn assemble(self) -> (r: Result<Message, ()>)
        requires
            self.wf(),
        ensures
            r is Ok <==> (self.received_count == self.total_expected && spec_assembled(
                self.slots(),
                self.total_expected as int,
            ).len() <= MAX_MESSAGE_SIZE),
            r matches Ok(m) ==> m.header == self.header && m.payload@ == spec_assembled(
                self.slots(),
                self.total_expected as int,
            ) && m.wf(),
    {
        if self.received_count != self.total_expected {
            return Err(());
        }
        let total = self.total_expected as usize;
        proof {
            lemma_slot_count_bounds(self.slots(), MAX_FRAGMENTS_PER_MESSAGE as int);
            if total > MAX_FRAGMENTS_PER_MESSAGE {
                lemma_slot_count_extend(
                    self.slots(),
                    0,
                    MAX_FRAGMENTS_PER_MESSAGE as int,
                );
            } else {
                lemma_slot_count_extend(self.slots(), total as int, MAX_FRAGMENTS_PER_MESSAGE as int);
                lemma_slot_count_full(self.slots(), total as int);
            }
        }

        let mut payload: Vec<u8> = Vec::new();
        let mut i: usize = 0;
        while i < total
            invariant
                i <= total,
                total == self.total_expected,
                total <= MAX_FRAGMENTS_PER_MESSAGE,
                self.fragments@.len() == MAX_FRAGMENTS_PER_MESSAGE,
                forall|j: int| 0 <= j < total ==> self.slots()[j] is Some,
                forall|j: int|
                    0 <= j < MAX_FRAGMENTS_PER_MESSAGE ==> opt_bytes(
                        #[trigger] self.slots()[j],
                    ).len() <= MAX_PAYLOAD_SIZE,
                payload@ == spec_assembled(self.slots(), i as int),
                payload@.len() <= MAX_MESSAGE_SIZE,
            decreases total - i,
        {
            match &self.fragments[i] {
                Some(fragment) => {
                    if payload.len() + fragment.len() > MAX_MESSAGE_SIZE {
                        proof {
                            lemma_assembled_len_monotonic(self.slots(), i + 1, total as int);
                        }
                        return Err(());
                    }
                    push_bytes(&mut payload, fragment.as_slice());
                },
                None => {
                    proof {
                        assert(self.slots()[i as int] is Some);
                    }
                    return Err(());
                },
            }
            i = i + 1;
        }
        Ok(Message { header: self.header, payload })
    }
}

/// Whether the table holds an entry for the transmission from `sender` with `seq`.
pub open spec fn table_has_key(
    entries: Seq<(FragmentKey, FragmentBuffer)>,
    sender: Seq<u8>,
    seq: u16,
) -> bool {
    exists|i: int| 0 <= i < entries.len() && key_matches(#[trigger] entries[i].0, sender, seq)
}

/// A table entry freshly created for the first frame of `header`'s transmission.
pub open spec fn is_fresh_entry(e: (FragmentKey, FragmentBuffer), header: MessageHeader) -> bool {
    &&& key_matches(e.0, header.sender_id@, header.sequence)
    &&& e.1.wf()
    &&& e.1.header == header
    &&& e.1.received_count == 0
    &&& e.1.total_expected == header.total_fragments
    &&& e.1.slots() == empty_slots()
}

/// The table after admitting `header`'s key: unchanged when the key is
/// already tracked; otherwise the oldest entry is evicted if the table is
/// full, and a fresh buffer is appended.
pub open spec fn admits(
    pre: Seq<(FragmentKey, FragmentBuffer)>,
    post: Seq<(FragmentKey, FragmentBuffer)>,
    header: MessageHeader,
) -> bool {
    if table_has_key(pre, header.sender_id@, header.sequence) {
        post == pre
    } else {
        let base = if pre.len() >= MAX_CONCURRENT_MESSAGES {
            pre.drop_first()
        } else {
            pre
        };
        &&& post.len() == base.len() + 1
        &&& post.drop_last() == base
        &&& is_fresh_entry(post.last(), header)
    }
}

/// How one call of `FragmentAssembler::add_fragment` changes the table and
/// what it returns: the key is admitted, the fragment is delivered to its
/// buffer, and a completed buffer is removed and assembled.
pub open spec fn add_fragment_transition(
    pre: Seq<(FragmentKey, FragmentBuffer)>,
    post: Seq<(FragmentKey, FragmentBuffer)>,
    header: MessageHeader,
    payload: Seq<u8>,
    r: Result<Option<Message>, ()>,
) -> bool {
    exists|mid: Seq<(FragmentKey, FragmentBuffer)>, p: int|
        {
            &&& #[trigger] admits(pre, mid, header)
            &&& 0 <= p < mid.len()
            &&& key_matches(#[trigger] mid[p].0, header.sender_id@, header.sequence)
            &&& {
                let buf = mid[p].1;
                let index = header.fragment_index as int;
                let total = buf.total_expected as int;
                let stored = delivery_stored(buf.slots(), total, index, payload);
                let newslots = apply_delivery(buf.slots(), total, index, payload);
                let failed = index >= total || index >= MAX_FRAGMENTS_PER_MESSAGE || (
                buf.slots()[index] is None && payload.len() > MAX_PAYLOAD_SIZE);
                let complete = stored && buf.received_count + 1 == total;
                if failed || !complete {
                    // rejected (an error), stored, or silently dropped as a
                    // duplicate: the entry stays, with the delivery applied
                    &&& (if failed {
                        r is Err
                    } else {
                        r == Ok::<Option<Message>, ()>(None)
                    })
                    &&& post.len() == mid.len()
                    &&& forall|j: int| 0 <= j < mid.len() && j != p ==> post[j] == mid[j]
                    &&& post[p].0 == mid[p].0
                    &&& post[p].1.wf()
                    &&& post[p].1.header == buf.header
                    &&& post[p].1.total_expected == buf.total_expected
                    &&& post[p].1.slots() == newslots
                    &&& post[p].1.received_count as int == buf.received_count + (if stored {
                        1int
                    } else {
                        0int
                    })
                } else {
                    // complete: the buffer is removed, and its fragments are
                    // concatenated in index order when they fit in a message
                    &&& post == mid.remove(p)
                    &&& (r matches Ok(o) ==> o matches Some(m) && m.header == buf.header
                        && m.payload@ == spec_assembled(newslots, total))
                    &&& (r is Ok <==> spec_assembled(newslots, total).len() <= MAX_MESSAGE_SIZE)
                }
            }
        }
}

/// Bounded table of in-flight reassemblies, oldest entry first.
pub struct FragmentAssembler {
    pub buffers: Vec<(FragmentKey, FragmentBuffer)>,
}

impl FragmentAssembler {
    /// The table's invariant: within capacity, buffers well formed, and one
    /// entry per key.
    pub open spec fn wf(self) -> bool {
        &&& self.buffers@.len() <= MAX_CONCURRENT_MESSAGES
        &&& forall|i: int| 0 <= i < self.buffers@.len() ==> (#[trigger] self.buffers@[i]).1.wf()
        &&& forall|i: int, j: int|
            0 <= i < j < self.buffers@.len() ==> !key_matches(
                #[trigger] self.buffers@[j].0,
                (#[trigger] self.buffers@[i]).0.sender_id@,
                self.buffers@[i].0.sequence,
            )
    }

    pub fn new() -> (a: FragmentAssembler)
        ensures
            a.wf(),
            a.buffers@.len() == 0,
    {
        FragmentAssembler { buffers: Vec::new() }
    }

    /// The position of the entry for `(sender, seq)`, if one is tracked.
    fn find_key(&self, sender: &[u8; 6], sequence: u16) -> (r: Option<usize>)
        ensures
            r matches Some(p) ==> (p as int) < self.buffers@.len() && key_matches(
                self.buffers@[p as int].0,
                sender@,
                sequence,
            ),
            r is None <==> !table_has_key(self.buffers@, sender@, sequence),
    {
        let mut i: usize = 0;
        while i < self.buffers.len()
            invariant
                i <= self.buffers@.len(),
                forall|j: int|
                    0 <= j < i ==> !key_matches(
                        (#[trigger] self.buffers@[j]).0,
                        sender@,
                        sequence,
                    ),
            decreases self.buffers@.len() - i,
        {
            let key = &self.buffers[i].0;
            if ids_match(&key.sender_id, sender) && key.sequence == sequence {
                return Some(i);
            }
            i = i + 1;
        }
        None
    }

    /// Deliver one inbound fragment. Returns the reassembled message once the
    /// last fragment of its transmission arrives, `None` while more are
    /// awaited or the frame was a duplicate, and an error for a rejected
    /// fragment or an oversized reassembly.
    pub fn add_fragment(&mut self, header: MessageHeader, payload: &[u8]) -> (r: Result<
        Option<Message>,
        (),
    >)
        requires
            old(self).wf(),
        ensures
            final(self).wf(),
            add_fragment_transition(old(self).buffers@, final(self).buffers@, header, payload@, r),
            final(self).buffers@.len() <= MAX_CONCURRENT_MESSAGES,
            r matches Ok(Some(m)) ==> m.wf(),
            ({
                let mid_len = if table_has_key(
                    old(self).buffers@,
                    header.sender_id@,
                    header.sequence,
                ) || old(self).buffers@.len() >= MAX_CONCURRENT_MESSAGES {
                    old(self).buffers@.len() as int
                } else {
                    old(self).buffers@.len() + 1int
                };
                &&& (r matches Ok(None) ==> final(self).buffers@.len() == mid_len)
                &&& (r matches Ok(Some(_)) ==> final(self).buffers@.len() == mid_len - 1)
                // an oversized reassembly still removes its buffer, so an
                // error leaves either the whole admitted table or one less
                &&& (r is Err ==> final(self).buffers@.len() == mid_len
                    || final(self).buffers@.len() == mid_len - 1)
            }),
    {
        let p: usize = match self.find_key(&header.sender_id, header.sequence) {
            Some(p) => p,
            None => {
                if self.buffers.len() >= MAX_CONCURRENT_MESSAGES {
                    // evict the oldest entry to bound memory use
                    let _evicted = self.buffers.remove(0);
                    proof {
                        lemma_table_drop_first_keys(old(self).buffers@);
                    }
                }
                let buffer = FragmentBuffer::new(header);
                let key = FragmentKey::new(header.sender_id, header.sequence);
                self.buffers.push((key, buffer));
                proof {
                    let base = if old(self).buffers@.len() >= MAX_CONCURRENT_MESSAGES {
                        old(self).buffers@.drop_first()
                    } else {
                        old(self).buffers@
                    };
                    assert(self.buffers@.drop_last() =~= base);
                    assert(is_fresh_entry(self.buffers@.last(), header));
                }
                self.buffers.len() - 1
            },
        };
        let ghost mid = self.buffers@;

        let mut entry = self.buffers.remove(p);
        let step = entry.1.add_fragment(header.fragment_index, payload);
        let is_complete = match step {
            Ok(c) => c,
            Err(_) => {
                self.buffers.insert(p, entry);
                proof {
                    assert(self.buffers@ =~= mid.update(p as int, entry));
                    lemma_admits_holds(old(self).buffers@, mid, header);
                    lemma_table_update_keys(mid, p as int, entry);
                }
                return Err(());
            },
        };

        if is_complete {
            let (_key, buffer) = entry;
            let result = buffer.assemble();
            proof {
                lemma_admits_holds(old(self).buffers@, mid, header);
                lemma_table_remove_keys(mid, p as int);
            }
            match result {
                Ok(message) => Ok(Some(message)),
                Err(_) => Err(()),
            }
        } else {
            self.buffers.insert(p, entry);
            proof {
                assert(self.buffers@ =~= mid.update(p as int, entry));
                lemma_admits_holds(old(self).buffers@, mid, header);
                lemma_table_update_keys(mid, p as int, entry);
            }
            Ok(None)
        }
    }

    /// How many incomplete transmissions are currently tracked.
    pub fn pending_count(&self) -> (n: usize)
        ensures
            n == self.buffers@.len(),
    {
        self.buffers.len()
    }

    /// Discard all partial reassembly state.
    pub fn clear(&mut self)
        ensures
            final(self).wf(),
            final(self).buffers@.len() == 0,
    {
        self.buffers.clear();
    }
}

/// A fragment slice fits in one fragment.
proof fn lemma_frag_slice_len(p: Seq<u8>, i: int)
    requires
        p.len() <= MAX_MESSAGE_SIZE,
        0 <= i < spec_fragment_count(p.len()),
    ensures
        frag_slice(p, i).len() <= MAX_PAYLOAD_SIZE,
{
    lemma_fragment_count_bounds(p.len() as int);
    if p.len() > 0 {
        vstd::arithmetic::mul::lemma_mul_inequality(
            i,
            spec_fragment_count(p.len()) - 1,
            MAX_PAYLOAD_SIZE as int,
        );
    }
}

/// Delivering fragments of `p` to slots that already hold only fragments of
/// `p` fills exactly the slots whose indices were already filled or delivered.
proof fn lemma_deliveries_fill(p: Seq<u8>, slots: Seq<Option<Seq<u8>>>, ds: Seq<int>)
    requires
        p.len() <= MAX_MESSAGE_SIZE,
        slots.len() == MAX_FRAGMENTS_PER_MESSAGE,
        forall|i: int|
            0 <= i < MAX_FRAGMENTS_PER_MESSAGE ==> ((#[trigger] slots[i]) is None || (i
                < spec_fragment_count(p.len()) && slots[i] == Some(frag_slice(p, i)))),
        forall|j: int| 0 <= j < ds.len() ==> 0 <= #[trigger] ds[j] < spec_fragment_count(p.len()),
    ensures
        ({
            let count = spec_fragment_count(p.len());
            let r = apply_fragment_deliveries(slots, count, p, ds);
            &&& r.len() == MAX_FRAGMENTS_PER_MESSAGE
            &&& forall|i: int|
                0 <= i < MAX_FRAGMENTS_PER_MESSAGE ==> #[trigger] r[i] == (if i < count && (
                slots[i] is Some || ds.contains(i)) {
                    Some(frag_slice(p, i))
                } else {
                    None
                })
        }),
    decreases ds.len(),
{
    let count = spec_fragment_count(p.len());
    lemma_fragment_count_bounds(p.len() as int);
    if ds.len() == 0 {
    } else {
        let d0 = ds[0];
        lemma_frag_slice_len(p, d0);
        let slots1 = apply_delivery(slots, count, d0, frag_slice(p, d0));
        lemma_deliveries_fill(p, slots1, ds.drop_first());
        assert forall|i: int| 0 <= i < MAX_FRAGMENTS_PER_MESSAGE implies #[trigger] apply_fragment_deliveries(
            slots,
            count,
            p,
            ds,
        )[i] == (if i < count && (slots[i] is Some || ds.contains(i)) {
            Some(frag_slice(p, i))
        } else {
            None
        }) by {
            if ds.contains(i) {
                let w = choose|w: int| 0 <= w < ds.len() && ds[w] == i;
                if w == 0 {
                } else {
                    assert(ds.drop_first()[w - 1] == i);
                    assert(ds.drop_first().contains(i));
                }
            }
            if ds.drop_first().contains(i) {
                let w = choose|w: int| 0 <= w < ds.drop_first().len() && ds.drop_first()[w] == i;
                assert(ds[w + 1] == i);
                assert(ds.contains(i));
            }
            if i == d0 {
                assert(ds.contains(i));
            }
        }
    }
}

proof fn lemma_assembled_matches_concat(slots: Seq<Option<Seq<u8>>>, p: Seq<u8>, k: int)
    requires
        forall|i: int| 0 <= i < k ==> #[trigger] slots[i] == Some(frag_slice(p, i)),
    ensures
        spec_assembled(slots, k) == spec_concat_frags(p, k),
    decreases k,
{
    if k > 0 {
        lemma_assembled_matches_concat(slots, p, k - 1);
    }
}

/// Reassembly is order-independent: delivering the fragments of one payload
/// in any order that covers every fragment index at least once (duplicates
/// included) fills the slots with exactly the payload's fragment slices, and
/// assembling them in index order reproduces the payload itself.
pub proof fn lemma_reassembly_order_independent(p: Seq<u8>, ds: Seq<int>)
    requires
        p.len() <= MAX_MESSAGE_SIZE,
        forall|j: int| 0 <= j < ds.len() ==> 0 <= #[trigger] ds[j] < spec_fragment_count(p.len()),
        forall|i: int| 0 <= i < spec_fragment_count(p.len()) ==> ds.contains(i),
    ensures
        ({
            let count = spec_fragment_count(p.len());
            let r = apply_fragment_deliveries(empty_slots(), count, p, ds);
            &&& forall|i: int|
                0 <= i < count ==> #[trigger] r[i] == Some(frag_slice(p, i))
            &&& spec_assembled(r, count) == p
        }),
{
    let count = spec_fragment_count(p.len());
    lemma_fragment_count_bounds(p.len() as int);
    lemma_deliveries_fill(p, empty_slots(), ds);
    let r = apply_fragment_deliveries(empty_slots(), count, p, ds);
    lemma_assembled_matches_concat(r, p, count);
    lemma_fragments_cover_payload(p);
}

proof fn lemma_table_drop_first_keys(entries: Seq<(FragmentKey, FragmentBuffer)>)
    requires
        entries.len() > 0,
    ensures
        forall|s: Seq<u8>, q: u16|
            #[trigger] table_has_key(entries.drop_first(), s, q) ==> table_has_key(entries, s, q),
{
    assert forall|s: Seq<u8>, q: u16| #[trigger]
        table_has_key(entries.drop_first(), s, q) implies table_has_key(entries, s, q) by {
        let i = choose|i: int|
            0 <= i < entries.drop_first().len() && key_matches(
                #[trigger] entries.drop_first()[i].0,
                s,
                q,
            );
        assert(key_matches(entries[i + 1].0, s, q));
    }
}

proof fn lemma_admits_holds(
    pre: Seq<(FragmentKey, FragmentBuffer)>,
    mid: Seq<(FragmentKey, FragmentBuffer)>,
    header: MessageHeader,
)
    requires
        table_has_key(pre, header.sender_id@, header.sequence) ==> mid == pre,
        !table_has_key(pre, header.sender_id@, header.sequence) ==> {
            let base = if pre.len() >= MAX_CONCURRENT_MESSAGES {
                pre.drop_first()
            } else {
                pre
            };
            mid.len() == base.len() + 1 && mid.drop_last() == base && is_fresh_entry(
                mid.last(),
                header,
            )
        },
    ensures
        admits(pre, mid, header),
{
}

proof fn lemma_table_remove_keys(entries: Seq<(FragmentKey, FragmentBuffer)>, p: int)
    requires
        0 <= p < entries.len(),
        forall|i: int, j: int|
            0 <= i < j < entries.len() ==> !key_matches(
                #[trigger] entries[j].0,
                (#[trigger] entries[i]).0.sender_id@,
                entries[i].0.sequence,
            ),
        forall|i: int| 0 <= i < entries.len() ==> (#[trigger] entries[i]).1.wf(),
    ensures
        forall|i: int, j: int|
            0 <= i < j < entries.remove(p).len() ==> !key_matches(
                #[trigger] entries.remove(p)[j].0,
                (#[trigger] entries.remove(p)[i]).0.sender_id@,
                entries.remove(p)[i].0.sequence,
            ),
        forall|i: int| 0 <= i < entries.remove(p).len() ==> (#[trigger] entries.remove(p)[i]).1.wf(),
{
    assert forall|i: int, j: int|
        0 <= i < j < entries.remove(p).len() implies !key_matches(
        #[trigger] entries.remove(p)[j].0,
        (#[trigger] entries.remove(p)[i]).0.sender_id@,
        entries.remove(p)[i].0.sequence,
    ) by {
        let i0 = if i < p {
            i
        } else {
            i + 1
        };
        let j0 = if j < p {
            j
        } else {
            j + 1
        };
        assert(entries.remove(p)[i] == entries[i0]);
        assert(entries.remove(p)[j] == entries[j0]);
    }
}

proof fn lemma_table_update_keys(
    entries: Seq<(FragmentKey, FragmentBuffer)>,
    p: int,
    e: (FragmentKey, FragmentBuffer),
)
    requires
        0 <= p < entries.len(),
        e.0 == entries[p].0,
        e.1.wf(),
        forall|i: int, j: int|
            0 <= i < j < entries.len() ==> !key_matches(
                #[trigger] entries[j].0,
                (#[trigger] entries[i]).0.sender_id@,
                entries[i].0.sequence,
            ),
        forall|i: int| 0 <= i < entries.len() ==> i != p ==> (#[trigger] entries[i]).1.wf(),
    ensures
        forall|i: int, j: int|
            0 <= i < j < entries.update(p, e).len() ==> !key_matches(
                #[trigger] entries.update(p, e)[j].0,
                (#[trigger] entries.update(p, e)[i]).0.sender_id@,
                entries.update(p, e)[i].0.sequence,
            ),
        forall|i: int| 0 <= i < entries.update(p, e).len() ==> (#[trigger] entries.update(p, e)[i]).1.wf(),
{
}

} // verus!
