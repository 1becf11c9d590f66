//! The inflight tracker: an ordered record of packets sent but not yet
//! acknowledged. Packets enter at the tail in transmission order and
//! leave only from the front, when a cumulative acknowledgement covers
//! them.
//!
//! Each queued packet is paired with a ghost unwrapped transmission
//! counter; the queue keeps these strictly increasing, which is what
//! "ordered by sequence number modulo wraparound" means once the 16-bit
//! counter can wrap.

use vstd::prelude::*;
use std::collections::VecDeque;
use crate::packet::Packet;
use crate::seqnum::lemma_no_repeat_within_epoch;
use crate::seqnum::seq_le;
use crate::seqnum::seq_le_spec;
use crate::seqnum::seq_of_epoch;

verus! {

/// Bytes taken on the wire by the first `k` packets of `s`.
pub open spec fn bytes_in_first(s: Seq<Packet>, k: int) -> int
    decreases k,
{
    if k <= 0 {
        0
    } else {
        bytes_in_first(s, k - 1) + s[k - 1].size_spec()
    }
}

/// Bytes taken on the wire by all packets of `s`.
pub open spec fn bytes_inflight(s: Seq<Packet>) -> int {
    bytes_in_first(s, s.len() as int)
}

/// An acknowledgement number covers a packet whose sequence number is at
/// or before it in the wrap-aware order.
pub open spec fn covered_by_ack(p: Packet, ack: u16) -> bool {
    seq_le_spec(p.header.seq_number, ack)
}

/// Length of the longest prefix of `s` wholly covered by `ack`.
pub open spec fn covered_prefix_len(s: Seq<Packet>, ack: u16) -> int
    decreases s.len(),
{
    if s.len() == 0 || !covered_by_ack(s[0], ack) {
        0
    } else {
        1 + covered_prefix_len(s.skip(1), ack)
    }
}

pub proof fn lemma_bytes_in_first_mono(s: Seq<Packet>, i: int, j: int)
    requires
        i <= j,
    ensures
        bytes_in_first(s, i) <= bytes_in_first(s, j),
    decreases j - i,
{
    if i < j {
        lemma_bytes_in_first_mono(s, i, j - 1);
    }
}

/// `bytes_in_first` reads only the first `k` entries.
pub proof fn lemma_bytes_in_first_prefix(s1: Seq<Packet>, s2: Seq<Packet>, k: int)
    requires
        forall|i: int| 0 <= i < k ==> s1[i] == s2[i],
    ensures
        bytes_in_first(s1, k) == bytes_in_first(s2, k),
    decreases k,
{
    if k > 0 {
        lemma_bytes_in_first_prefix(s1, s2, k - 1);
    }
}

/// Counting from position `k` of `s` is counting in `s.skip(k)`.
pub proof fn lemma_bytes_in_first_skip(s: Seq<Packet>, k: int, j: int)
    requires
        0 <= k,
        0 <= j,
        k + j <= s.len(),
    ensures
        bytes_in_first(s.skip(k), j) == bytes_in_first(s, k + j) - bytes_in_first(s, k),
    decreases j,
{
    if j > 0 {
        lemma_bytes_in_first_skip(s, k, j - 1);
        assert(s.skip(k)[j - 1] == s[k + j - 1]);
    }
}

/// The covered prefix is exactly the front run of covered packets: it is
/// in bounds, every packet in it is covered, and the packet right after
/// it, if any, is not.
pub proof fn lemma_covered_prefix_props(s: Seq<Packet>, ack: u16)
    ensures
        0 <= covered_prefix_len(s, ack) <= s.len(),
        forall|i: int| 0 <= i < covered_prefix_len(s, ack) ==> covered_by_ack(#[trigger] s[i], ack),
        covered_prefix_len(s, ack) < s.len() ==> !covered_by_ack(s[covered_prefix_len(s, ack)], ack),
    decreases s.len(),
{
    if s.len() != 0 && covered_by_ack(s[0], ack) {
        lemma_covered_prefix_props(s.skip(1), ack);
        let k = covered_prefix_len(s, ack);
        assert forall|i: int| 0 <= i < k implies covered_by_ack(#[trigger] s[i], ack) by {
            if i > 0 {
                assert(covered_by_ack(s.skip(1)[i - 1], ack));
            }
        }
        if k < s.len() {
            assert(s.skip(1)[k - 1] == s[k]);
        }
    }
}

/// A stopping point that is covered up to `k` and uncovered at `k` pins
/// the covered prefix length to `k`.
pub proof fn lemma_covered_prefix_len_is(s: Seq<Packet>, ack: u16, k: int)
    requires
        0 <= k <= s.len(),
        forall|i: int| 0 <= i < k ==> covered_by_ack(#[trigger] s[i], ack),
        k < s.len() ==> !covered_by_ack(s[k], ack),
    ensures
        covered_prefix_len(s, ack) == k,
    decreases s.len(),
{
    if s.len() != 0 && covered_by_ack(s[0], ack) {
        assert forall|i: int| 0 <= i < k - 1 implies covered_by_ack(#[trigger] s.skip(1)[i], ack) by {
            assert(s.skip(1)[i] == s[i + 1]);
        }
        if k - 1 < s.skip(1).len() {
            assert(s.skip(1)[k - 1] == s[k]);
        }
        lemma_covered_prefix_len_is(s.skip(1), ack, k - 1);
    }
}

/// Whether some packet of `s` carries sequence number `n`.
pub open spec fn has_seq(s: Seq<Packet>, n: u16) -> bool {
    exists|i: int| 0 <= i < s.len() && (#[trigger] s[i]).header.seq_number == n
}

/// Index of the first packet of `s` carrying sequence number `n`.
pub open spec fn find_seq_index(s: Seq<Packet>, n: u16) -> int
    decreases s.len(),
{
    if s.len() == 0 {
        0
    } else if s[0].header.seq_number == n {
        0
    } else {
        1 + find_seq_index(s.skip(1), n)
    }
}

/// A position whose packet matches, with no match before it, is where
/// `find_seq_index` points.
pub proof fn lemma_find_seq_index_is(s: Seq<Packet>, n: u16, k: int)
    requires
        0 <= k < s.len(),
        forall|i: int| 0 <= i < k ==> (#[trigger] s[i]).header.seq_number != n,
        s[k].header.seq_number == n,
    ensures
        find_seq_index(s, n) == k,
    decreases s.len(),
{
    if k > 0 {
        assert forall|i: int| 0 <= i < k - 1 implies (#[trigger] s.skip(1)[i]).header.seq_number
            != n by {
            assert(s.skip(1)[i] == s[i + 1]);
        }
        assert(s.skip(1)[k - 1] == s[k]);
        lemma_find_seq_index_is(s.skip(1), n, k - 1);
    }
}

/// Ordered record of packets sent but not yet acknowledged.
pub struct InflightQueue {
    pub packets: VecDeque<Packet>,
    /// Unwrapped transmission counter of each queued packet, in order.
    pub epochs: Ghost<Seq<int>>,
}

impl InflightQueue {
    pub open spec fn wf(self) -> bool {
        &&& self.epochs@.len() == self.packets@.len()
        &&& forall|i: int| 0 <= i < self.packets@.len() ==> (#[trigger] self.epochs@[i]) >= 0
        &&& forall|i: int|
            0 <= i < self.packets@.len() ==> (#[trigger] self.packets@[i]).header.seq_number
                == seq_of_epoch(self.epochs@[i])
        &&& forall|i: int, j: int|
            #![trigger self.epochs@[i], self.epochs@[j]]
            0 <= i < j < self.packets@.len() ==> self.epochs@[i] < self.epochs@[j]
        &&& self.packets@.len() > 0 ==> self.epochs@.last() - self.epochs@[0] < 0x8000
        &&& forall|i: int| 0 <= i < self.packets@.len() ==> (#[trigger] self.packets@[i]).wf()
        &&& bytes_inflight(self.packets@) <= 0xffff_ffff
    }

    pub fn new() -> (r: InflightQueue)
        ensures
            r.wf(),
            r.packets@.len() == 0,
            r.epochs@.len() == 0,
    {
        InflightQueue { packets: VecDeque::new(), epochs: Ghost(Seq::empty()) }
    }

    pub fn len(&self) -> (r: usize)
        ensures
            r == self.packets@.len(),
    {
        self.packets.len()
    }

    /// Append a packet at the tail. Its unwrapped counter must come after
    /// every counter already queued — packets enter in transmission
    /// order — and must stay within half the sequence space of the
    /// oldest queued counter, which is what keeps the wrap-aware cover
    /// test faithful over the whole queue.
    pub fn push_packet(&mut self, p: Packet, epoch: Ghost<int>)
        requires
            old(self).wf(),
            p.wf(),
            epoch@ >= 0,
            p.header.seq_number == seq_of_epoch(epoch@),
            forall|i: int| 0 <= i < old(self).epochs@.len() ==> (#[trigger] old(self).epochs@[i]) < epoch@,
            old(self).packets@.len() > 0 ==> epoch@ - old(self).epochs@[0] < 0x8000,
            bytes_inflight(old(self).packets@) + p.size_spec() <= 0xffff_ffff,
        ensures
            final(self).wf(),
            final(self).packets@ == old(self).packets@.push(p),
            final(self).epochs@ == old(self).epochs@.push(epoch@),
            bytes_inflight(final(self).packets@) == bytes_inflight(old(self).packets@)
                + p.size_spec(),
    {
        proof {
            let s1 = old(self).packets@;
            let s2 = s1.push(p);
            lemma_bytes_in_first_prefix(s1, s2, s1.len() as int);
            assert(bytes_in_first(s2, s2.len() as int)
                == bytes_in_first(s2, s1.len() as int) + p.size_spec());
        }
        self.packets.push_back(p);
        proof {
            self.epochs@ = self.epochs@.push(epoch@);
        }
    }

    /// Total bytes currently in flight (sent but not acknowledged).
    pub fn inflight_size(&self) -> (r: u64)
        requires
            self.wf(),
        ensures
            r == bytes_inflight(self.packets@),
    {
        let n = self.packets.len();
        let mut acc: u64 = 0;
        let mut i: usize = 0;
        while i < n
            invariant
                self.wf(),
                i <= n,
                n == self.packets@.len(),
                acc == bytes_in_first(self.packets@, i as int),
            decreases n - i,
        {
            proof {
                lemma_bytes_in_first_mono(self.packets@, i + 1, n as int);
            }
            let p = &self.packets[i];
            acc = acc + p.size();
            i = i + 1;
        }
        acc
    }

    /// Whether some queued packet carries sequence number `n`.
    pub fn contains_seq(&self, n: u16) -> (r: bool)
        ensures
            r == exists|i: int|
                0 <= i < self.packets@.len() && (#[trigger] self.packets@[i]).header.seq_number == n,
    {
        let len = self.packets.len();
        let mut i: usize = 0;
        while i < len
            invariant
                i <= len,
                len == self.packets@.len(),
                forall|j: int| 0 <= j < i ==> (#[trigger] self.packets@[j]).header.seq_number != n,
            decreases len - i,
        {
            if self.packets[i].header.seq_number == n {
                return true;
            }
            i = i + 1;
        }
        false
    }

    /// Index of the first queued packet carrying sequence number `n`.
    pub fn index_of_seq(&self, n: u16) -> (r: usize)
        requires
            has_seq(self.packets@, n),
        ensures
            r == find_seq_index(self.packets@, n),
            0 <= r < self.packets@.len(),
            self.packets@[r as int].header.seq_number == n,
    {
        let len = self.packets.len();
        let mut i: usize = 0;
        while i < len
            invariant
                i <= len,
                len == self.packets@.len(),
                has_seq(self.packets@, n),
                forall|j: int| 0 <= j < i ==> (#[trigger] self.packets@[j]).header.seq_number != n,
            decreases len - i,
        {
            if self.packets[i].header.seq_number == n {
                proof {
                    lemma_find_seq_index_is(self.packets@, n, i as int);
                }
                return i;
            }
            i = i + 1;
        }
        proof {
            assert(false);
        }
        0
    }

    /// Drop every queued packet: the connection is being torn down.
    pub fn clear(&mut self)
        ensures
            final(self).wf(),
            final(self).packets@.len() == 0,
            final(self).epochs@.len() == 0,
    {
        self.packets.clear();
        proof {
            self.epochs@ = Seq::empty();
        }
    }

    /// Cumulative-acknowledgement removal: drop the packets the
    /// acknowledgement covers, from the front and in order, stopping at
    /// the first packet it does not cover. Returns the bytes removed.
    ///
    /// Nothing past the covered front run leaves the queue: a packet with
    /// a sequence number after `ack` is never removed. And by
    /// `lemma_cumulative_cover`, on a well-formed queue the front run
    /// reaches past any packet the acknowledgement number matches.
    pub fn remove_acked(&mut self, ack: u16) -> (removed: u64)
        requires
            old(self).wf(),
        ensures
            final(self).wf(),
            final(self).packets@ == old(self).packets@.skip(
                covered_prefix_len(old(self).packets@, ack),
            ),
            final(self).epochs@ == old(self).epochs@.skip(
                covered_prefix_len(old(self).packets@, ack),
            ),
            removed == bytes_in_first(
                old(self).packets@,
                covered_prefix_len(old(self).packets@, ack),
            ),
    {
        let ghost orig = self.packets@;
        let ghost orig_epochs = self.epochs@;
        let n = self.packets.len();

        // Find the end of the covered front run.
        let mut k: usize = 0;
        while k < n && seq_le(self.packets[k].header.seq_number, ack)
            invariant
                k <= n,
                n == self.packets@.len(),
                self.packets@ == orig,
                forall|i: int| 0 <= i < k ==> covered_by_ack(#[trigger] orig[i], ack),
            decreases n - k,
        {
            k = k + 1;
        }
        proof {
            lemma_covered_prefix_len_is(orig, ack, k as int);
        }

        // Drop it.
        proof {
            assert(orig.skip(0) =~= orig);
            assert(orig_epochs.skip(0) =~= orig_epochs);
        }
        let mut i: usize = 0;
        let mut removed: u64 = 0;
        while i < k
            invariant
                i <= k,
                k <= orig.len(),
                self.packets@ == orig.skip(i as int),
                self.epochs@ == orig_epochs.skip(i as int),
                orig_epochs.len() == orig.len(),
                removed == bytes_in_first(orig, i as int),
                bytes_inflight(orig) <= 0xffff_ffff,
                forall|j: int| 0 <= j < orig.len() ==> (#[trigger] orig[j]).wf(),
            decreases k - i,
        {
            proof {
                lemma_bytes_in_first_mono(orig, i + 1, orig.len() as int);
                assert(orig.skip(i as int)[0] == orig[i as int]);
            }
            let front = self.packets.pop_front();
            match front {
                Some(p) => {
                    removed = removed + p.size();
                }
                None => {
                    proof {
                        assert(false);
                    }
                }
            }
            proof {
                self.epochs@ = self.epochs@.skip(1);
                assert(orig.skip(i as int).subrange(1, orig.skip(i as int).len() as int)
                    =~= orig.skip(i + 1));
                assert(orig_epochs.skip(i as int).skip(1) =~= orig_epochs.skip(i + 1));
            }
            i = i + 1;
        }
        proof {
            let k_int = k as int;
            let rest = orig.skip(k_int);
            lemma_bytes_in_first_skip(orig, k_int, orig.len() - k_int);
            lemma_bytes_in_first_mono(orig, 0, k_int);
            assert forall|a: int, b: int|
                #![trigger self.epochs@[a], self.epochs@[b]]
                0 <= a < b < self.packets@.len() implies self.epochs@[a] < self.epochs@[b] by {
                assert(orig_epochs[k_int + a] < orig_epochs[k_int + b]);
            }
        }
        removed
    }
}

/// A front run of covered packets pushes the covered prefix at least
/// that far.
pub proof fn lemma_covered_prefix_at_least(s: Seq<Packet>, ack: u16, k: int)
    requires
        0 <= k <= s.len(),
        forall|i: int| 0 <= i < k ==> covered_by_ack(#[trigger] s[i], ack),
    ensures
        covered_prefix_len(s, ack) >= k,
    decreases s.len(),
{
    if k > 0 {
        assert(covered_by_ack(s[0], ack));
        assert forall|i: int| 0 <= i < k - 1 implies covered_by_ack(#[trigger] s.skip(1)[i], ack) by {
            assert(s.skip(1)[i] == s[i + 1]);
        }
        lemma_covered_prefix_at_least(s.skip(1), ack, k - 1);
        assert(covered_prefix_len(s, ack) == 1 + covered_prefix_len(s.skip(1), ack));
    } else {
        lemma_covered_prefix_props(s, ack);
    }
}

/// Cumulative cover is consistent over a well-formed queue: when an
/// acknowledgement number matches a queued packet, the covered prefix
/// reaches past it, so removal takes the matched packet and everything
/// transmitted before it. This rests on the queue's epoch span staying
/// under half the sequence space, which `push_packet` demands.
pub proof fn lemma_cumulative_cover(q: InflightQueue, ack: u16)
    requires
        q.wf(),
        has_seq(q.packets@, ack),
    ensures
        covered_prefix_len(q.packets@, ack) > find_seq_index(q.packets@, ack),
{
    let s = q.packets@;
    let j = choose|j: int| 0 <= j < s.len() && (#[trigger] s[j]).header.seq_number == ack;
    let f = find_seq_index(s, ack);
    lemma_find_seq_first(s, ack, j);
    assert forall|i: int| 0 <= i <= f implies covered_by_ack(#[trigger] s[i], ack) by {
        if i < f {
            assert(q.epochs@[i] < q.epochs@[f]);
        }
        if 0 < i {
            assert(q.epochs@[0] < q.epochs@[i]);
        }
        if f < s.len() - 1 {
            assert(q.epochs@[f] < q.epochs@[s.len() - 1]);
        }
        crate::seqnum::lemma_dist_of_epochs(q.epochs@[i], q.epochs@[f]);
    }
    lemma_covered_prefix_at_least(s, ack, f + 1);
}

/// `find_seq_index` points at or before any match.
proof fn lemma_find_seq_first(s: Seq<Packet>, n: u16, j: int)
    requires
        0 <= j < s.len(),
        s[j].header.seq_number == n,
    ensures
        0 <= find_seq_index(s, n) <= j,
        s[find_seq_index(s, n)].header.seq_number == n,
    decreases s.len(),
{
    if s[0].header.seq_number != n {
        assert(s.skip(1)[j - 1] == s[j]);
        lemma_find_seq_first(s.skip(1), n, j - 1);
        assert(s.skip(1)[find_seq_index(s.skip(1), n)]
            == s[1 + find_seq_index(s.skip(1), n)]);
    }
}

/// In a well-formed queue, two distinct queued packets that lie within one
/// un-wrapped epoch of each other (fewer than 2^16 transmissions apart)
/// never carry the same sequence number, and the later one's unwrapped
/// counter is strictly larger: sequence numbers strictly increase along
/// the queue modulo 2^16.
pub proof fn lemma_queue_seq_monotone(q: InflightQueue, i: int, j: int)
    requires
        q.wf(),
        0 <= i < j < q.packets@.len(),
        q.epochs@[j] - q.epochs@[i] < 0x10000,
    ensures
        q.epochs@[i] < q.epochs@[j],
        q.packets@[i].header.seq_number != q.packets@[j].header.seq_number,
{
    lemma_no_repeat_within_epoch(q.epochs@[i], q.epochs@[j]);
}

} // verus!
