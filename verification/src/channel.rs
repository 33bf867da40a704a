//! Bounded channel slots: the queue between one producer port and one
//! consumer input.
//!
//! A slot keeps its packets ordered by version regardless of arrival order,
//! never holds more than its capacity, and applies a configurable overflow
//! policy when a write arrives while it is full.

use vstd::prelude::*;

use crate::error::PipeError;
use crate::packet::Packet;
use crate::version::DataVersion;

verus! {

/// What a full slot does with one more incoming packet.
#[derive(Clone, Copy, Debug, PartialEq, Eq, Structural)]
pub enum OverflowPolicy {
    /// Reject the write; the writer is expected to retry (backpressure).
    Block,
    /// Discard the oldest packet of the union of buffer and newcomer.
    DropOldest,
    /// Discard the newest packet of the union of buffer and newcomer.
    DropNewest,
}

/// How one write into a slot was resolved.
#[derive(Clone, Copy, Debug, PartialEq, Eq, Structural)]
pub enum WriteOutcome {
    /// The packet was stored and nothing was discarded.
    Delivered,
    /// The slot was full under the blocking policy; nothing changed.
    Full,
    /// The packet was stored after the oldest of buffer-plus-packet was discarded.
    DroppedOldest,
    /// The packet was stored unless it was itself the newest, which was discarded.
    DroppedNewest,
}

/// `s` is ordered by version, oldest first.
pub open spec fn sorted_by_version<T>(s: Seq<Packet<T>>) -> bool {
    forall|i: int, j: int|
        0 <= i < j < s.len() ==> #[trigger] s[i].version.spec_le(#[trigger] s[j].version)
}

/// Index at which a packet of version `v` is inserted into the ordered
/// buffer `s`: after every entry that is not newer than `v`.
pub open spec fn slot_insert_idx<T>(s: Seq<Packet<T>>, v: DataVersion) -> int
    decreases s.len(),
{
    if s.len() == 0 {
        0
    } else if v.spec_lt(s[0].version) {
        0
    } else {
        1 + slot_insert_idx(s.drop_first(), v)
    }
}

/// The ordered buffer `s` with `p` inserted at its version's place.
pub open spec fn slot_insert<T>(s: Seq<Packet<T>>, p: Packet<T>) -> Seq<Packet<T>> {
    s.insert(slot_insert_idx(s, p.version), p)
}

/// The insertion index stays within the buffer.
pub proof fn lemma_insert_idx_in_range<T>(s: Seq<Packet<T>>, v: DataVersion)
    ensures
        0 <= slot_insert_idx(s, v) <= s.len(),
    decreases s.len(),
{
    if s.len() != 0 && !v.spec_lt(s[0].version) {
        lemma_insert_idx_in_range(s.drop_first(), v);
    }
}

/// The insertion index is the unique boundary: everything before it is not
/// newer than `v`, everything from it on is strictly newer.
pub proof fn lemma_insert_idx_boundary<T>(s: Seq<Packet<T>>, v: DataVersion)
    requires
        sorted_by_version(s),
    ensures
        forall|j: int| 0 <= j < slot_insert_idx(s, v) ==> #[trigger] s[j].version.spec_le(v),
        forall|j: int| slot_insert_idx(s, v) <= j < s.len() ==> v.spec_lt(#[trigger] s[j].version),
    decreases s.len(),
{
    lemma_insert_idx_in_range(s, v);
    if s.len() != 0 {
        if v.spec_lt(s[0].version) {
            assert forall|j: int| 0 <= j < s.len() implies v.spec_lt(#[trigger] s[j].version) by {
                if j > 0 {
                    assert(s[0].version.spec_le(s[j].version));
                }
            }
        } else {
            let t = s.drop_first();
            assert(sorted_by_version(t)) by {
                assert forall|i: int, j: int| 0 <= i < j < t.len() implies #[trigger] t[i].version.spec_le(
                    #[trigger] t[j].version,
                ) by {
                    assert(t[i] == s[i + 1]);
                    assert(t[j] == s[j + 1]);
                }
            }
            lemma_insert_idx_boundary(t, v);
            let k = slot_insert_idx(s, v);
            assert forall|j: int| 0 <= j < k implies #[trigger] s[j].version.spec_le(v) by {
                if j > 0 {
                    assert(t[j - 1].version.spec_le(v));
                    assert(t[j - 1] == s[j]);
                }
            }
            assert forall|j: int| k <= j < s.len() implies v.spec_lt(#[trigger] s[j].version) by {
                assert(t[j - 1].version == s[j].version);
                assert(v.spec_lt(t[j - 1].version));
            }
        }
    }
}

/// A boundary index is the insertion index: `slot_insert_idx` is pinned by
/// the two boundary conditions alone.
pub proof fn lemma_boundary_is_insert_idx<T>(s: Seq<Packet<T>>, v: DataVersion, k: int)
    requires
        0 <= k <= s.len(),
        forall|j: int| 0 <= j < k ==> #[trigger] s[j].version.spec_le(v),
        forall|j: int| k <= j < s.len() ==> v.spec_lt(#[trigger] s[j].version),
    ensures
        slot_insert_idx(s, v) == k,
    decreases s.len(),
{
    if s.len() == 0 {
    } else if k == 0 {
        assert(v.spec_lt(s[0].version));
    } else {
        assert(s[0].version.spec_le(v));
        let t = s.drop_first();
        assert forall|j: int| 0 <= j < k - 1 implies #[trigger] t[j].version.spec_le(v) by {
            assert(t[j] == s[j + 1]);
        }
        assert forall|j: int| k - 1 <= j < t.len() implies v.spec_lt(#[trigger] t[j].version) by {
            assert(t[j] == s[j + 1]);
        }
        lemma_boundary_is_insert_idx(t, v, k - 1);
    }
}

/// Inserting at the version's place keeps the buffer ordered.
pub proof fn lemma_slot_insert_sorted<T>(s: Seq<Packet<T>>, p: Packet<T>)
    requires
        sorted_by_version(s),
    ensures
        sorted_by_version(slot_insert(s, p)),
        slot_insert(s, p).len() == s.len() + 1,
    decreases s.len(),
{
    let k = slot_insert_idx(s, p.version);
    lemma_insert_idx_in_range(s, p.version);
    lemma_insert_idx_boundary(s, p.version);
    let u = slot_insert(s, p);
    s.insert_ensures(k, p);
    assert forall|i: int, j: int| 0 <= i < j < u.len() implies #[trigger] u[i].version.spec_le(
        #[trigger] u[j].version,
    ) by {
        if i < k && j < k {
            assert(u[i] == s[i] && u[j] == s[j]);
        } else if i < k && j == k {
            assert(u[i] == s[i]);
            assert(s[i].version.spec_le(p.version));
        } else if i < k && j > k {
            assert(u[i] == s[i] && u[j] == s[j - 1]);
            assert(s[i].version.spec_le(p.version));
            assert(p.version.spec_lt(s[j - 1].version));
        } else if i == k && j > k {
            assert(u[j] == s[j - 1]);
            assert(p.version.spec_lt(s[j - 1].version));
        } else if i > k && j > k {
            assert(u[i] == s[i - 1] && u[j] == s[j - 1]);
        }
    }
}

/// Law: under drop-oldest a full slot keeps the most recent packets of
/// everything offered to it. The element removed from the ordered union of
/// buffer and newcomer is its head, which is no newer than anything kept,
/// and exactly one element is removed.
pub proof fn lemma_drop_oldest_retains_newest<T>(s: Seq<Packet<T>>, p: Packet<T>)
    requires
        sorted_by_version(s),
    ensures
        sorted_by_version(slot_insert(s, p)),
        slot_insert(s, p).to_multiset() == s.push(p).to_multiset(),
        forall|j: int|
            0 <= j < slot_insert(s, p).len() ==> slot_insert(s, p)[0].version.spec_le(
                #[trigger] slot_insert(s, p)[j].version,
            ),
        slot_insert(s, p).drop_first().len() == s.len(),
{
    lemma_slot_insert_sorted(s, p);
    lemma_slot_insert_multiset(s, p);
    let u = slot_insert(s, p);
    assert forall|j: int| 0 <= j < u.len() implies u[0].version.spec_le(#[trigger] u[j].version) by {
        if j > 0 {
            assert(u[0].version.spec_le(u[j].version));
        }
    }
}

/// Ordered insertion holds the same packets as appending.
pub proof fn lemma_slot_insert_multiset<T>(s: Seq<Packet<T>>, p: Packet<T>)
    ensures
        slot_insert(s, p).to_multiset() == s.push(p).to_multiset(),
{
    let k = slot_insert_idx(s, p.version);
    lemma_insert_idx_in_range(s, p.version);
    let u = slot_insert(s, p);
    s.insert_ensures(k, p);
    u.to_multiset_ensures();
    s.to_multiset_ensures();
    assert(u.remove(k) =~= s);
    assert(u.remove(k).to_multiset() =~= u.to_multiset().remove(u[k]));
    assert(u.contains(p)) by {
        assert(u[k] == p);
    }
    assert(u.to_multiset().count(p) > 0);
    assert(u.to_multiset() =~= s.to_multiset().insert(p));
    assert(s.push(p).to_multiset() =~= s.to_multiset().insert(p));
}

/// A fixed-capacity queue holding the unconsumed packets of one
/// producer-to-consumer edge, ordered by version.
pub struct ChannelSlot<T> {
    packets: Vec<Packet<T>>,
    capacity: usize,
    policy: OverflowPolicy,
    closed: bool,
    dropped: u64,
}

impl<T> ChannelSlot<T> {
    /// The buffered packets, oldest version first.
    pub closed spec fn contents(self) -> Seq<Packet<T>> {
        self.packets@
    }

    pub closed spec fn spec_capacity(self) -> usize {
        self.capacity
    }

    pub closed spec fn spec_policy(self) -> OverflowPolicy {
        self.policy
    }

    pub closed spec fn spec_closed(self) -> bool {
        self.closed
    }

    /// How many packets overflow handling has discarded so far.
    pub closed spec fn spec_dropped(self) -> u64 {
        self.dropped
    }

    /// The slot invariant: capacity is positive, the buffer never exceeds
    /// it, and packets are ordered by version.
    pub open spec fn wf(self) -> bool {
        &&& self.spec_capacity() >= 1
        &&& self.contents().len() <= self.spec_capacity()
        &&& sorted_by_version(self.contents())
    }

    /// Configuration carried over by every operation.
    pub open spec fn same_config(self, other: ChannelSlot<T>) -> bool {
        &&& self.spec_capacity() == other.spec_capacity()
        &&& self.spec_policy() == other.spec_policy()
    }

    pub fn new(capacity: usize, policy: OverflowPolicy) -> (slot: ChannelSlot<T>)
        requires
            capacity >= 1,
        ensures
            slot.wf(),
            slot.contents() == Seq::<Packet<T>>::empty(),
            slot.spec_capacity() == capacity,
            slot.spec_policy() == policy,
            !slot.spec_closed(),
            slot.spec_dropped() == 0,
    {
        ChannelSlot { packets: Vec::new(), capacity, policy, closed: false, dropped: 0 }
    }

    pub fn len(&self) -> (n: usize)
        ensures
            n == self.contents().len(),
    {
        self.packets.len()
    }

    pub fn is_empty(&self) -> (b: bool)
        ensures
            b == (self.contents().len() == 0),
    {
        self.packets.len() == 0
    }

    pub fn is_closed(&self) -> (b: bool)
        ensures
            b == self.spec_closed(),
    {
        self.closed
    }

    pub fn capacity(&self) -> (c: usize)
        ensures
            c == self.spec_capacity(),
    {
        self.capacity
    }

    pub fn dropped_count(&self) -> (n: u64)
        ensures
            n == self.spec_dropped(),
    {
        self.dropped
    }

    /// Discards every buffered packet (abandoning in-flight work).
    pub fn clear(&mut self)
        requires
            old(self).wf(),
        ensures
            final(self).wf(),
            final(self).same_config(*old(self)),
            final(self).spec_closed() == old(self).spec_closed(),
            final(self).spec_dropped() == old(self).spec_dropped(),
            final(self).contents() == Seq::<Packet<T>>::empty(),
    {
        self.packets = Vec::new();
    }

    /// Marks the consuming node as stopped; later writes fail.
    pub fn close(&mut self)
        ensures
            final(self).spec_closed(),
            final(self).contents() == old(self).contents(),
            final(self).same_config(*old(self)),
            final(self).spec_dropped() == old(self).spec_dropped(),
    {
        self.closed = true;
    }

    /// The version of the oldest buffered packet.
    pub fn oldest_version(&self) -> (v: Option<DataVersion>)
        ensures
            self.contents().len() == 0 ==> v is None,
            self.contents().len() > 0 ==> v == Some(self.contents()[0].version),
    {
        if self.packets.len() == 0 {
            None
        } else {
            Some(self.packets[0].version)
        }
    }

    /// The version of the newest buffered packet.
    pub fn newest_version(&self) -> (v: Option<DataVersion>)
        ensures
            self.contents().len() == 0 ==> v is None,
            self.contents().len() > 0 ==> v == Some(
                self.contents()[self.contents().len() - 1].version,
            ),
    {
        if self.packets.len() == 0 {
            None
        } else {
            Some(self.packets[self.packets.len() - 1].version)
        }
    }

    /// All buffered versions, oldest first.
    pub fn versions(&self) -> (vs: Vec<DataVersion>)
        ensures
            vs@ == self.contents().map_values(|p: Packet<T>| p.version),
    {
        let ghost mapped = self.contents().map_values(|p: Packet<T>| p.version);
        let mut vs: Vec<DataVersion> = Vec::new();
        let n = self.packets.len();
        for i in 0..n
            invariant
                n == self.contents().len(),
                vs@.len() == i,
                forall|j: int| 0 <= j < i ==> vs@[j] == self.contents()[j].version,
        {
            vs.push(self.packets[i].version);
        }
        proof {
            assert(vs@ =~= mapped);
        }
        vs
    }

    /// Index where a packet of version `v` would be stored.
    fn insert_pos(&self, v: &DataVersion) -> (k: usize)
        requires
            self.wf(),
        ensures
            k == slot_insert_idx(self.contents(), *v),
    {
        let mut i: usize = self.packets.len();
        while i > 0 && v.lt(&self.packets[i - 1].version)
            invariant
                self.wf(),
                i <= self.contents().len(),
                forall|j: int|
                    i <= j < self.contents().len() ==> v.spec_lt(
                        #[trigger] self.contents()[j].version,
                    ),
            decreases i,
        {
            i = i - 1;
        }
        proof {
            assert forall|j: int| 0 <= j < i implies #[trigger] self.contents()[j].version.spec_le(
                *v,
            ) by {
                assert(self.contents()[j].version.spec_le(self.contents()[i - 1].version));
                assert(self.contents()[i - 1].version.spec_le(*v));
            }
            lemma_boundary_is_insert_idx(self.contents(), *v, i as int);
        }
        i
    }

    /// What one write into `pre` reports: closed slots reject the write,
    /// a slot with room delivers, a full slot answers per its policy.
    pub open spec fn spec_enqueue_result(pre: ChannelSlot<T>) -> Result<WriteOutcome, PipeError> {
        if pre.spec_closed() {
            Err(PipeError::ChannelClosed)
        } else if pre.contents().len() < pre.spec_capacity() {
            Ok(WriteOutcome::Delivered)
        } else {
            match pre.spec_policy() {
                OverflowPolicy::Block => Ok(WriteOutcome::Full),
                OverflowPolicy::DropOldest => Ok(WriteOutcome::DroppedOldest),
                OverflowPolicy::DropNewest => Ok(WriteOutcome::DroppedNewest),
            }
        }
    }

    /// The buffer after one write of `p` into `pre`: unchanged when closed
    /// or full-and-blocking; otherwise the ordered union of buffer and
    /// newcomer, with its oldest or newest element removed when a full
    /// slot's policy drops.
    pub open spec fn spec_enqueue_contents(pre: ChannelSlot<T>, p: Packet<T>) -> Seq<Packet<T>> {
        if pre.spec_closed() {
            pre.contents()
        } else if pre.contents().len() < pre.spec_capacity() {
            slot_insert(pre.contents(), p)
        } else {
            match pre.spec_policy() {
                OverflowPolicy::Block => pre.contents(),
                OverflowPolicy::DropOldest => slot_insert(pre.contents(), p).drop_first(),
                OverflowPolicy::DropNewest => slot_insert(pre.contents(), p).drop_last(),
            }
        }
    }

    /// The drop counter after one write: it grows exactly when a full
    /// slot's policy discarded a packet.
    pub open spec fn spec_enqueue_dropped(pre: ChannelSlot<T>) -> u64 {
        if !pre.spec_closed() && pre.contents().len() == pre.spec_capacity() && !(
        pre.spec_policy() is Block) {
            spec_saturating_inc(pre.spec_dropped())
        } else {
            pre.spec_dropped()
        }
    }

    /// Appends one packet, reordering by version; applies the overflow
    /// policy when the slot is full. Fails only when the slot is closed.
    #[verifier::rlimit(60)]
    pub fn enqueue(&mut self, p: Packet<T>) -> (r: Result<WriteOutcome, PipeError>)
        requires
            old(self).wf(),
        ensures
            final(self).wf(),
            final(self).same_config(*old(self)),
            final(self).spec_closed() == old(self).spec_closed(),
            r == Self::spec_enqueue_result(*old(self)),
            final(self).contents() == Self::spec_enqueue_contents(*old(self), p),
            final(self).spec_dropped() == Self::spec_enqueue_dropped(*old(self)),
            !old(self).spec_closed() && old(self).contents().len() < old(self).spec_capacity()
                ==> final(self).contents().len() == old(self).contents().len() + 1,
            old(self).spec_closed() || old(self).contents().len() == old(self).spec_capacity()
                ==> final(self).contents().len() == old(self).contents().len(),
    {
        if self.closed {
            return Err(PipeError::ChannelClosed);
        }
        let ghost s = self.contents();
        proof {
            lemma_insert_idx_in_range(s, p.version);
            lemma_insert_idx_boundary(s, p.version);
            lemma_slot_insert_sorted(s, p);
        }
        if self.packets.len() < self.capacity {
            let k = self.insert_pos(&p.version);
            self.packets.insert(k, p);
            Ok(WriteOutcome::Delivered)
        } else {
            match self.policy {
                OverflowPolicy::Block => Ok(WriteOutcome::Full),
                OverflowPolicy::DropOldest => {
                    let k = self.insert_pos(&p.version);
                    if k == 0 {
                        // The newcomer is the oldest of the union: discard it.
                        proof {
                            s.insert_ensures(0, p);
                            assert(slot_insert(s, p).drop_first() =~= s);
                        }
                    } else {
                        let _ = self.packets.remove(0);
                        self.packets.insert(k - 1, p);
                        proof {
                            s.insert_ensures(k as int, p);
                            s.drop_first().insert_ensures(k - 1, p);
                            assert(self.packets@ =~= slot_insert(s, p).drop_first());
                        }
                    }
                    self.dropped = saturating_inc(self.dropped);
                    proof {
                        lemma_sorted_drop_first(slot_insert(s, p));
                    }
                    Ok(WriteOutcome::DroppedOldest)
                },
                OverflowPolicy::DropNewest => {
                    let k = self.insert_pos(&p.version);
                    if k == self.packets.len() {
                        // The newcomer is the newest of the union: discard it.
                        proof {
                            s.insert_ensures(k as int, p);
                            assert(slot_insert(s, p).drop_last() =~= s);
                        }
                    } else {
                        let _ = self.packets.pop();
                        self.packets.insert(k, p);
                        proof {
                            s.insert_ensures(k as int, p);
                            s.drop_last().insert_ensures(k as int, p);
                            assert(self.packets@ =~= slot_insert(s, p).drop_last());
                        }
                    }
                    self.dropped = saturating_inc(self.dropped);
                    proof {
                        lemma_sorted_drop_last(slot_insert(s, p));
                    }
                    Ok(WriteOutcome::DroppedNewest)
                },
            }
        }
    }

    /// Removes and returns the oldest buffered packet.
    pub fn pop_oldest(&mut self) -> (r: Option<Packet<T>>)
        requires
            old(self).wf(),
        ensures
            final(self).wf(),
            final(self).same_config(*old(self)),
            final(self).spec_closed() == old(self).spec_closed(),
            final(self).spec_dropped() == old(self).spec_dropped(),
            old(self).contents().len() == 0 ==> r is None
                && final(self).contents() == old(self).contents(),
            old(self).contents().len() > 0 ==> r == Some(old(self).contents()[0])
                && final(self).contents() == old(self).contents().drop_first(),
    {
        if self.packets.len() == 0 {
            None
        } else {
            let p = self.packets.remove(0);
            proof {
                assert(self.packets@ =~= old(self).contents().drop_first());
                lemma_sorted_drop_first(old(self).contents());
            }
            Some(p)
        }
    }

    /// Removes and returns the first buffered packet whose version equals
    /// `v` exactly; the buffer is unchanged when none matches.
    pub fn take_version(&mut self, v: &DataVersion) -> (r: Option<Packet<T>>)
        requires
            old(self).wf(),
        ensures
            final(self).wf(),
            final(self).same_config(*old(self)),
            final(self).spec_closed() == old(self).spec_closed(),
            final(self).spec_dropped() == old(self).spec_dropped(),
            match r {
                Some(p) => exists|j: int|
                    {
                        &&& 0 <= j < old(self).contents().len()
                        &&& #[trigger] old(self).contents()[j].version == *v
                        &&& forall|i: int|
                            0 <= i < j ==> #[trigger] old(self).contents()[i].version != *v
                        &&& p == old(self).contents()[j]
                        &&& final(self).contents() == old(self).contents().remove(j)
                    },
                None => {
                    &&& final(self).contents() == old(self).contents()
                    &&& forall|j: int|
                        0 <= j < old(self).contents().len() ==> #[trigger] old(
                            self,
                        ).contents()[j].version != *v
                },
            },
    {
        let n = self.packets.len();
        let mut i: usize = 0;
        while i < n
            invariant
                self == old(self),
                self.wf(),
                n == self.contents().len(),
                i <= n,
                forall|j: int| 0 <= j < i ==> #[trigger] self.contents()[j].version != *v,
            decreases n - i,
        {
            if self.packets[i].version == *v {
                proof {
                    lemma_sorted_remove(self.contents(), i as int);
                }
                let p = self.packets.remove(i);
                proof {
                    assert(old(self).contents()[i as int].version == *v);
                }
                return Some(p);
            }
            i = i + 1;
        }
        None
    }

    /// Discards every packet strictly older than `v`; they form a prefix
    /// of the ordered buffer. Returns how many were discarded.
    pub fn drop_older_than(&mut self, v: &DataVersion) -> (n: usize)
        requires
            old(self).wf(),
        ensures
            final(self).wf(),
            final(self).same_config(*old(self)),
            final(self).spec_closed() == old(self).spec_closed(),
            final(self).spec_dropped() == old(self).spec_dropped(),
            n <= old(self).contents().len(),
            final(self).contents() == old(self).contents().skip(n as int),
            forall|j: int| 0 <= j < n ==> (#[trigger] old(self).contents()[j].version).spec_lt(*v),
            n < old(self).contents().len() ==> v.spec_le(
                old(self).contents()[n as int].version,
            ),
    {
        let ghost s = self.contents();
        let total = self.packets.len();
        proof {
            assert(s.len() == total as int);
        }
        let mut n: usize = 0;
        loop
            invariant
                self.wf(),
                self.same_config(*old(self)),
                self.spec_closed() == old(self).spec_closed(),
                self.spec_dropped() == old(self).spec_dropped(),
                s == old(self).contents(),
                s.len() <= usize::MAX,
                n <= s.len(),
                self.contents() == s.skip(n as int),
                forall|j: int| 0 <= j < n ==> (#[trigger] s[j].version).spec_lt(*v),
            ensures
                self.contents() == s.skip(n as int),
                n <= s.len(),
                forall|j: int| 0 <= j < n ==> (#[trigger] s[j].version).spec_lt(*v),
                n < s.len() ==> v.spec_le(s[n as int].version),
            decreases s.len() - n,
        {
            if self.packets.len() == 0 {
                break;
            }
            let first = &self.packets[0];
            if !first.version.lt(v) {
                return n;
            }
            let _ = self.packets.remove(0);
            proof {
                lemma_sorted_drop_first(s.skip(n as int));
                assert(s.skip(n as int).drop_first() =~= s.skip(n as int + 1));
                assert(s[n as int].version.spec_lt(*v));
            }
            n = n + 1;
        }
        n
    }

    /// Consumes version `v`: discards the stale prefix strictly older than
    /// `v`, then removes and returns the first packet of version `v`.
    /// `None` when no packet of that version is buffered.
    pub fn consume_version(&mut self, v: &DataVersion) -> (r: Option<Packet<T>>)
        requires
            old(self).wf(),
        ensures
            final(self).wf(),
            final(self).same_config(*old(self)),
            final(self).spec_closed() == old(self).spec_closed(),
            final(self).spec_dropped() == old(self).spec_dropped(),
            final(self).contents() == spec_consume(old(self).contents(), *v).0,
            r == spec_consume(old(self).contents(), *v).1,
    {
        let ghost s = self.contents();
        let n = self.drop_older_than(v);
        proof {
            assert forall|j: int| 0 <= j < n implies (#[trigger] s[j].version).spec_lt(*v) by {}
            lemma_stale_prefix_of_boundary(s, *v, n as int);
        }
        let ghost t = self.contents();
        let r = self.take_version(v);
        proof {
            match &r {
                Some(p) => {
                    let j = choose|j: int|
                        {
                            &&& 0 <= j < t.len()
                            &&& #[trigger] t[j].version == *v
                            &&& forall|i: int| 0 <= i < j ==> #[trigger] t[i].version != *v
                            &&& *p == t[j]
                            &&& self.contents() == t.remove(j)
                        };
                    lemma_first_match_of_boundary(t, *v, j);
                },
                None => {
                    lemma_first_match_absent(t, *v);
                },
            }
        }
        r
    }
}

/// How many leading entries of `s` are strictly older than `v`.
pub open spec fn stale_prefix<T>(s: Seq<Packet<T>>, v: DataVersion) -> int
    decreases s.len(),
{
    if s.len() == 0 {
        0
    } else if s[0].version.spec_lt(v) {
        1 + stale_prefix(s.drop_first(), v)
    } else {
        0
    }
}

/// The first index of `s` holding exactly version `v`, or `s.len()`.
pub open spec fn first_match<T>(s: Seq<Packet<T>>, v: DataVersion) -> int
    decreases s.len(),
{
    if s.len() == 0 {
        0
    } else if s[0].version == v {
        0
    } else {
        1 + first_match(s.drop_first(), v)
    }
}

/// The effect of consuming version `v` from an ordered buffer: the stale
/// prefix (strictly older than `v`) is discarded, then the first packet of
/// version `v`, if any, is removed and handed out.
pub open spec fn spec_consume<T>(s: Seq<Packet<T>>, v: DataVersion) -> (Seq<Packet<T>>, Option<
    Packet<T>,
>) {
    let t = s.skip(stale_prefix(s, v));
    let j = first_match(t, v);
    if j < t.len() {
        (t.remove(j), Some(t[j]))
    } else {
        (t, None)
    }
}

/// The boundary conditions pin the stale prefix length.
pub proof fn lemma_stale_prefix_of_boundary<T>(s: Seq<Packet<T>>, v: DataVersion, n: int)
    requires
        0 <= n <= s.len(),
        forall|j: int| 0 <= j < n ==> (#[trigger] s[j].version).spec_lt(v),
        n < s.len() ==> !s[n].version.spec_lt(v),
    ensures
        stale_prefix(s, v) == n,
    decreases s.len(),
{
    if s.len() == 0 {
    } else if n == 0 {
    } else {
        assert(s[0].version.spec_lt(v));
        let t = s.drop_first();
        assert forall|j: int| 0 <= j < n - 1 implies (#[trigger] t[j].version).spec_lt(v) by {
            assert(t[j] == s[j + 1]);
        }
        assert(n - 1 < t.len() ==> !t[n - 1].version.spec_lt(v)) by {
            if n - 1 < t.len() {
                assert(t[n - 1] == s[n]);
            }
        }
        lemma_stale_prefix_of_boundary(t, v, n - 1);
    }
}

/// The boundary conditions pin the first matching index.
pub proof fn lemma_first_match_of_boundary<T>(s: Seq<Packet<T>>, v: DataVersion, j: int)
    requires
        0 <= j < s.len(),
        s[j].version == v,
        forall|i: int| 0 <= i < j ==> #[trigger] s[i].version != v,
    ensures
        first_match(s, v) == j,
    decreases s.len(),
{
    if j == 0 {
    } else {
        assert(s[0].version != v);
        let t = s.drop_first();
        assert(t[j - 1] == s[j]);
        assert forall|i: int| 0 <= i < j - 1 implies #[trigger] t[i].version != v by {
            assert(t[i] == s[i + 1]);
        }
        lemma_first_match_of_boundary(t, v, j - 1);
    }
}

/// A buffer without the version has its first match at the end.
pub proof fn lemma_first_match_absent<T>(s: Seq<Packet<T>>, v: DataVersion)
    requires
        forall|i: int| 0 <= i < s.len() ==> #[trigger] s[i].version != v,
    ensures
        first_match(s, v) == s.len(),
    decreases s.len(),
{
    if s.len() > 0 {
        let t = s.drop_first();
        assert forall|i: int| 0 <= i < t.len() implies #[trigger] t[i].version != v by {
            assert(t[i] == s[i + 1]);
        }
        lemma_first_match_absent(t, v);
    }
}

/// An ordered buffer stays ordered when any entry is removed.
pub proof fn lemma_sorted_remove<T>(s: Seq<Packet<T>>, k: int)
    requires
        sorted_by_version(s),
        0 <= k < s.len(),
    ensures
        sorted_by_version(s.remove(k)),
{
    let t = s.remove(k);
    s.remove_ensures(k);
    assert forall|i: int, j: int| 0 <= i < j < t.len() implies #[trigger] t[i].version.spec_le(
        #[trigger] t[j].version,
    ) by {
        let si = if i < k { i } else { i + 1 };
        let sj = if j < k { j } else { j + 1 };
        assert(t[i] == s[si]);
        assert(t[j] == s[sj]);
    }
}

/// One more, stopping at the counter's ceiling.
pub open spec fn spec_saturating_inc(n: u64) -> u64 {
    if n < u64::MAX {
        (n + 1) as u64
    } else {
        n
    }
}

pub(crate) fn saturating_inc(n: u64) -> (r: u64)
    ensures
        r == spec_saturating_inc(n),
{
    if n < u64::MAX {
        n + 1
    } else {
        n
    }
}

/// An ordered buffer stays ordered when its head is removed.
pub proof fn lemma_sorted_drop_first<T>(s: Seq<Packet<T>>)
    requires
        sorted_by_version(s),
        s.len() >= 1,
    ensures
        sorted_by_version(s.drop_first()),
{
    let t = s.drop_first();
    assert forall|i: int, j: int| 0 <= i < j < t.len() implies #[trigger] t[i].version.spec_le(
        #[trigger] t[j].version,
    ) by {
        assert(t[i] == s[i + 1]);
        assert(t[j] == s[j + 1]);
    }
}

/// An ordered buffer stays ordered when its last entry is removed.
pub proof fn lemma_sorted_drop_last<T>(s: Seq<Packet<T>>)
    requires
        sorted_by_version(s),
        s.len() >= 1,
    ensures
        sorted_by_version(s.drop_last()),
{
    let t = s.drop_last();
    assert forall|i: int, j: int| 0 <= i < j < t.len() implies #[trigger] t[i].version.spec_le(
        #[trigger] t[j].version,
    ) by {
        assert(t[i] == s[i]);
        assert(t[j] == s[j]);
    }
}

} // verus!
