//! Synchronization policies: given the buffered versions of every input
//! slot, decide whether a combined input is ready and which version each
//! slot contributes.
//!
//! Policies only inspect versions; the read channel applies their decision
//! to the packets themselves.

use vstd::prelude::*;

use crate::version::DataVersion;

verus! {

/// One slot's buffered versions are ordered, oldest first.
pub open spec fn versions_sorted(slot: Seq<DataVersion>) -> bool {
    forall|i: int, j: int|
        0 <= i < j < slot.len() ==> (#[trigger] slot[i]).spec_le(#[trigger] slot[j])
}

/// Every slot summary is ordered.
pub open spec fn all_sorted(slots: Seq<Seq<DataVersion>>) -> bool {
    forall|k: int| 0 <= k < slots.len() ==> versions_sorted(#[trigger] slots[k])
}

/// The version summaries of a vector of slot summaries.
pub open spec fn slot_views(slots: Seq<Vec<DataVersion>>) -> Seq<Seq<DataVersion>> {
    slots.map_values(|v: Vec<DataVersion>| v@)
}

/// Distance between two timestamps.
pub open spec fn ts_dist(a: u128, b: u128) -> int {
    if a >= b {
        a - b
    } else {
        b - a
    }
}

/// The reference version of the exact-match policy: the minimum, over all
/// slots holding at least one packet, of that slot's newest version.
/// `None` when every slot is empty.
pub open spec fn spec_candidate(slots: Seq<Seq<DataVersion>>) -> Option<DataVersion>
    decreases slots.len(),
{
    if slots.len() == 0 {
        None
    } else {
        let rest = spec_candidate(slots.drop_last());
        let slot = slots.last();
        if slot.len() == 0 {
            rest
        } else {
            match rest {
                None => Some(slot.last()),
                Some(w) => if slot.last().spec_lt(w) {
                    Some(slot.last())
                } else {
                    Some(w)
                },
            }
        }
    }
}

/// The buffered version closest in time to `t`; on equal distance the
/// newest wins when `prefer_newest`, otherwise the oldest.
pub open spec fn spec_closest(slot: Seq<DataVersion>, t: u128, prefer_newest: bool) -> Option<
    DataVersion,
>
    decreases slot.len(),
{
    if slot.len() == 0 {
        None
    } else {
        let rest = spec_closest(slot.drop_last(), t, prefer_newest);
        let v = slot.last();
        match rest {
            None => Some(v),
            Some(w) => {
                if ts_dist(v.timestamp_ns, t) < ts_dist(w.timestamp_ns, t) || (ts_dist(
                    v.timestamp_ns,
                    t,
                ) == ts_dist(w.timestamp_ns, t) && prefer_newest) {
                    Some(v)
                } else {
                    Some(w)
                }
            },
        }
    }
}

/// What the windowed policy selects from one slot: the closest buffered
/// version within `tolerance_ns` of the reference time, or "missing".
pub open spec fn spec_window_pick(
    slot: Seq<DataVersion>,
    t: u128,
    tolerance_ns: u128,
    prefer_newest: bool,
) -> Option<DataVersion> {
    match spec_closest(slot, t, prefer_newest) {
        None => None,
        Some(w) => if ts_dist(w.timestamp_ns, t) <= tolerance_ns {
            Some(w)
        } else {
            None
        },
    }
}

/// What the exact-match policy selects from one slot: the reference itself
/// when buffered; with a positive tolerance, the closest version within it.
pub open spec fn spec_exact_pick(
    slot: Seq<DataVersion>,
    c: DataVersion,
    tolerance_ns: u128,
) -> Option<DataVersion> {
    if tolerance_ns == 0 {
        if slot.contains(c) {
            Some(c)
        } else {
            None
        }
    } else {
        spec_window_pick(slot, c.timestamp_ns, tolerance_ns, false)
    }
}

/// Whatever `spec_closest` returns is a buffered version.
pub proof fn lemma_closest_is_member(slot: Seq<DataVersion>, t: u128, prefer_newest: bool)
    ensures
        match spec_closest(slot, t, prefer_newest) {
            Some(w) => slot.contains(w),
            None => slot.len() == 0,
        },
    decreases slot.len(),
{
    if slot.len() > 0 {
        lemma_closest_is_member(slot.drop_last(), t, prefer_newest);
        match spec_closest(slot.drop_last(), t, prefer_newest) {
            Some(w) => {
                assert(slot.drop_last().contains(w) ==> slot.contains(w));
            },
            None => {},
        }
        assert(slot.contains(slot.last()));
    }
}

/// No buffered version is strictly closer to `t` than the chosen one.
pub proof fn lemma_closest_is_closest(slot: Seq<DataVersion>, t: u128, prefer_newest: bool)
    ensures
        match spec_closest(slot, t, prefer_newest) {
            Some(w) => forall|j: int|
                0 <= j < slot.len() ==> ts_dist(w.timestamp_ns, t) <= ts_dist(
                    (#[trigger] slot[j]).timestamp_ns,
                    t,
                ),
            None => slot.len() == 0,
        },
    decreases slot.len(),
{
    if slot.len() > 0 {
        lemma_closest_is_closest(slot.drop_last(), t, prefer_newest);
        assert forall|j: int| 0 <= j < slot.len() - 1 implies slot.drop_last()[j] == slot[j] by {}
    }
}

/// The executable picks agree with the specified ones: `r` is ready with
/// vector `v` exactly when the specification is ready with `v`'s view.
pub open spec fn opt_picks_match(
    r: Option<Vec<Option<DataVersion>>>,
    s: Option<Seq<Option<DataVersion>>>,
) -> bool {
    match r {
        Some(v) => s == Some(v@),
        None => s is None,
    }
}

fn ts_distance(a: u128, b: u128) -> (d: u128)
    ensures
        d == ts_dist(a, b),
{
    if a >= b {
        a - b
    } else {
        b - a
    }
}

/// The minimum over non-empty slots of the slot's newest version: the
/// reference the exact-match policy measures every slot against.
pub fn candidate_of(slots: &Vec<Vec<DataVersion>>) -> (c: Option<DataVersion>)
    ensures
        c == spec_candidate(slot_views(slots@)),
{
    let ghost all = slot_views(slots@);
    let mut c: Option<DataVersion> = None;
    let n = slots.len();
    for k in 0..n
        invariant
            n == slots@.len(),
            all == slot_views(slots@),
            c == spec_candidate(all.take(k as int)),
    {
        let slot = &slots[k];
        proof {
            assert(all.take(k + 1).drop_last() =~= all.take(k as int));
            assert(all.take(k + 1).last() == slots@[k as int]@);
        }
        if slot.len() > 0 {
            let v = slot[slot.len() - 1];
            c = match c {
                None => Some(v),
                Some(w) => if v.lt(&w) {
                    Some(v)
                } else {
                    Some(w)
                },
            };
        }
    }
    proof {
        assert(all.take(n as int) =~= all);
    }
    c
}

/// The buffered version closest in time to `t`.
fn closest_of(slot: &Vec<DataVersion>, t: u128, prefer_newest: bool) -> (r: Option<DataVersion>)
    ensures
        r == spec_closest(slot@, t, prefer_newest),
{
    let mut r: Option<DataVersion> = None;
    let n = slot.len();
    for i in 0..n
        invariant
            n == slot@.len(),
            r == spec_closest(slot@.take(i as int), t, prefer_newest),
    {
        proof {
            assert(slot@.take(i + 1).drop_last() =~= slot@.take(i as int));
            assert(slot@.take(i + 1).last() == slot@[i as int]);
        }
        let v = slot[i];
        r = match r {
            None => Some(v),
            Some(w) => {
                let dv = ts_distance(v.timestamp_ns, t);
                let dw = ts_distance(w.timestamp_ns, t);
                if dv < dw || (dv == dw && prefer_newest) {
                    Some(v)
                } else {
                    Some(w)
                }
            },
        };
    }
    proof {
        assert(slot@.take(n as int) =~= slot@);
    }
    r
}

/// The closest buffered version within the window around `t`, if any.
fn window_pick_of(slot: &Vec<DataVersion>, t: u128, tolerance_ns: u128, prefer_newest: bool) -> (r:
    Option<DataVersion>)
    ensures
        r == spec_window_pick(slot@, t, tolerance_ns, prefer_newest),
{
    match closest_of(slot, t, prefer_newest) {
        None => None,
        Some(w) => {
            if ts_distance(w.timestamp_ns, t) <= tolerance_ns {
                Some(w)
            } else {
                None
            }
        },
    }
}

/// The exact-match selection from one slot against reference `c`.
fn exact_pick_of(slot: &Vec<DataVersion>, c: &DataVersion, tolerance_ns: u128) -> (r: Option<
    DataVersion,
>)
    ensures
        r == spec_exact_pick(slot@, *c, tolerance_ns),
{
    if tolerance_ns == 0 {
        let n = slot.len();
        for i in 0..n
            invariant
                tolerance_ns == 0,
                n == slot@.len(),
                forall|j: int| 0 <= j < i ==> slot@[j] != *c,
        {
            if slot[i] == *c {
                proof {
                    assert(slot@[i as int] == *c);
                    assert(slot@.contains(*c));
                }
                return Some(*c);
            }
        }
        assert(!slot@.contains(*c));
        None
    } else {
        window_pick_of(slot, c.timestamp_ns, tolerance_ns, false)
    }
}

/// Bookkeeping for one appended pick: how "any present" and "all present"
/// carry over from a prefix of picks to the prefix extended by `p`.
proof fn lemma_push_pick_tracking(
    prev: Seq<Option<DataVersion>>,
    cur: Seq<Option<DataVersion>>,
    p: Option<DataVersion>,
    any_some: bool,
    all_some: bool,
)
    requires
        cur == prev.push(p),
        any_some == (exists|j: int| 0 <= j < prev.len() && #[trigger] prev[j] is Some),
        all_some == (forall|j: int| 0 <= j < prev.len() ==> #[trigger] prev[j] is Some),
    ensures
        (any_some || p is Some) == (exists|j: int|
            0 <= j < cur.len() && #[trigger] cur[j] is Some),
        (all_some && p is Some) == (forall|j: int|
            0 <= j < cur.len() ==> #[trigger] cur[j] is Some),
{
    assert(cur[prev.len() as int] == p);
    assert(forall|j: int| 0 <= j < prev.len() ==> #[trigger] cur[j] == prev[j]);
    if p is Some {
        assert(cur[prev.len() as int] is Some);
    } else if any_some {
        let j0 = choose|j: int| 0 <= j < prev.len() && #[trigger] prev[j] is Some;
        assert(cur[j0] is Some);
    } else {
        assert forall|j: int| 0 <= j < cur.len() implies !(#[trigger] cur[j] is Some) by {
            if j < prev.len() {
                assert(!(prev[j] is Some));
            }
        }
    }
    if all_some && p is Some {
        assert forall|j: int| 0 <= j < cur.len() implies #[trigger] cur[j] is Some by {
            if j < prev.len() {
                assert(prev[j] is Some);
            }
        }
    } else if !all_some {
        let j0 = choose|j: int| 0 <= j < prev.len() && !(#[trigger] prev[j] is Some);
        assert(!(cur[j0] is Some));
    } else {
        assert(!(cur[prev.len() as int] is Some));
    }
}

/// The exact-match policy. A combined input is ready only when every
/// required slot (or, best-effort, at least one) holds a packet matching
/// the reference version: the minimum over non-empty slots of the slot's
/// newest version. Guarantees exact cross-stream correlation at the cost
/// of stalling on a lagging producer.
#[derive(Clone, Copy, Debug, PartialEq, Eq, Structural)]
pub struct TimestampSynchronizer {
    /// Width of the match window in nanoseconds; zero demands exact
    /// version equality.
    pub tolerance_ns: u128,
    /// When true, hold back until every slot matches; when false, proceed
    /// once one slot matches and mark the rest "missing".
    pub wait_for_all: bool,
}

impl TimestampSynchronizer {
    pub fn new(tolerance_ns: u128, wait_for_all: bool) -> (s: TimestampSynchronizer)
        ensures
            s.tolerance_ns == tolerance_ns,
            s.wait_for_all == wait_for_all,
    {
        TimestampSynchronizer { tolerance_ns, wait_for_all }
    }

    /// The whole decision: the selected version per slot when ready.
    pub open spec fn spec_synchronize(self, slots: Seq<Seq<DataVersion>>) -> Option<
        Seq<Option<DataVersion>>,
    > {
        match spec_candidate(slots) {
            None => None,
            Some(c) => {
                let picks = Seq::new(
                    slots.len(),
                    |k: int| spec_exact_pick(slots[k], c, self.tolerance_ns),
                );
                if self.wait_for_all {
                    if forall|k: int| 0 <= k < picks.len() ==> #[trigger] picks[k] is Some {
                        Some(picks)
                    } else {
                        None
                    }
                } else {
                    if exists|k: int| 0 <= k < picks.len() && #[trigger] picks[k] is Some {
                        Some(picks)
                    } else {
                        None
                    }
                }
            },
        }
    }

    /// Decides on the buffered versions of every slot, oldest first each.
    pub fn synchronize(&self, slots: &Vec<Vec<DataVersion>>) -> (r: Option<Vec<Option<DataVersion>>>)
        ensures
            opt_picks_match(r, self.spec_synchronize(slot_views(slots@))),
    {
        let c = match candidate_of(slots) {
            None => {
                return None;
            },
            Some(c) => c,
        };
        let ghost all = slot_views(slots@);
        let ghost spec_picks = Seq::new(
            all.len(),
            |k: int| spec_exact_pick(all[k], c, self.tolerance_ns),
        );
        let mut picks: Vec<Option<DataVersion>> = Vec::new();
        let mut any_some = false;
        let mut all_some = true;
        let n = slots.len();
        for k in 0..n
            invariant
                n == slots@.len(),
                all == slot_views(slots@),
                spec_picks == Seq::new(
                    all.len(),
                    |k: int| spec_exact_pick(all[k], c, self.tolerance_ns),
                ),
                picks@.len() == k,
                forall|j: int| 0 <= j < k ==> picks@[j] == spec_picks[j],
                any_some == exists|j: int| 0 <= j < k && #[trigger] picks@[j] is Some,
                all_some == forall|j: int| 0 <= j < k ==> #[trigger] picks@[j] is Some,
        {
            let p = exact_pick_of(&slots[k], &c, self.tolerance_ns);
            let got = p.is_some();
            let ghost prev = picks@;
            picks.push(p);
            proof {
                lemma_push_pick_tracking(prev, picks@, p, any_some, all_some);
            }
            any_some = any_some || got;
            all_some = all_some && got;
        }
        proof {
            assert(picks@ =~= spec_picks);
        }
        if (self.wait_for_all && all_some) || (!self.wait_for_all && any_some) {
            Some(picks)
        } else {
            None
        }
    }
}

/// The windowed policy. Each slot contributes its packet closest to the
/// reference time within the tolerance window; a slot with none resolves
/// to "missing". Trades exact correlation for liveness.
#[derive(Clone, Copy, Debug, PartialEq, Eq, Structural)]
pub struct RealTimeSynchronizer {
    /// Half-width of the admission window around the reference time.
    pub tolerance_ns: u128,
    /// When true, hold the tick open for slots without a candidate until
    /// the maximum wait elapses; when false, proceed at once.
    pub wait_for_all: bool,
    /// Tie-break among equally close in-window candidates.
    pub prefer_newest: bool,
}

impl RealTimeSynchronizer {
    pub fn new(tolerance_ns: u128, wait_for_all: bool, prefer_newest: bool) -> (s:
        RealTimeSynchronizer)
        ensures
            s.tolerance_ns == tolerance_ns,
            s.wait_for_all == wait_for_all,
            s.prefer_newest == prefer_newest,
    {
        RealTimeSynchronizer { tolerance_ns, wait_for_all, prefer_newest }
    }

    /// The whole decision for one tick at reference time `reference_ns`.
    /// `max_wait_elapsed` reports that the bounded wait for lagging slots
    /// has run out, after which missing members no longer hold the tick
    /// open: the policy never blocks indefinitely.
    pub open spec fn spec_synchronize(
        self,
        slots: Seq<Seq<DataVersion>>,
        reference_ns: u128,
        max_wait_elapsed: bool,
    ) -> Option<Seq<Option<DataVersion>>> {
        let picks = Seq::new(
            slots.len(),
            |k: int| spec_window_pick(slots[k], reference_ns, self.tolerance_ns, self.prefer_newest),
        );
        if (exists|k: int| 0 <= k < picks.len() && #[trigger] picks[k] is Some) && (!self.wait_for_all
            || max_wait_elapsed || (forall|k: int|
            0 <= k < picks.len() ==> #[trigger] picks[k] is Some)) {
            Some(picks)
        } else {
            None
        }
    }

    /// Decides on the buffered versions of every slot, oldest first each.
    pub fn synchronize(
        &self,
        slots: &Vec<Vec<DataVersion>>,
        reference_ns: u128,
        max_wait_elapsed: bool,
    ) -> (r: Option<Vec<Option<DataVersion>>>)
        ensures
            opt_picks_match(
                r,
                self.spec_synchronize(slot_views(slots@), reference_ns, max_wait_elapsed),
            ),
    {
        let ghost all = slot_views(slots@);
        let ghost spec_picks = Seq::new(
            all.len(),
            |k: int| spec_window_pick(all[k], reference_ns, self.tolerance_ns, self.prefer_newest),
        );
        let mut picks: Vec<Option<DataVersion>> = Vec::new();
        let mut any_some = false;
        let mut all_some = true;
        let n = slots.len();
        for k in 0..n
            invariant
                n == slots@.len(),
                all == slot_views(slots@),
                spec_picks == Seq::new(
                    all.len(),
                    |k: int|
                        spec_window_pick(
                            all[k],
                            reference_ns,
                            self.tolerance_ns,
                            self.prefer_newest,
                        ),
                ),
                picks@.len() == k,
                forall|j: int| 0 <= j < k ==> picks@[j] == spec_picks[j],
                any_some == exists|j: int| 0 <= j < k && #[trigger] picks@[j] is Some,
                all_some == forall|j: int| 0 <= j < k ==> #[trigger] picks@[j] is Some,
        {
            let p = window_pick_of(&slots[k], reference_ns, self.tolerance_ns, self.prefer_newest);
            let got = p.is_some();
            let ghost prev = picks@;
            picks.push(p);
            proof {
                lemma_push_pick_tracking(prev, picks@, p, any_some, all_some);
            }
            any_some = any_some || got;
            all_some = all_some && got;
        }
        proof {
            assert(picks@ =~= spec_picks);
        }
        if any_some && (!self.wait_for_all || max_wait_elapsed || all_some) {
            Some(picks)
        } else {
            None
        }
    }
}

/// Law: with zero tolerance the exact-match policy never emits a combined
/// input whose present members disagree in version. Every present member
/// equals the reference version, so any two present members are equal.
pub proof fn lemma_exact_match_members_agree(
    cfg: TimestampSynchronizer,
    slots: Seq<Seq<DataVersion>>,
    picks: Seq<Option<DataVersion>>,
)
    requires
        cfg.tolerance_ns == 0,
        cfg.spec_synchronize(slots) == Some(picks),
    ensures
        forall|i: int, j: int|
            0 <= i < picks.len() && 0 <= j < picks.len() && #[trigger] picks[i] is Some
                && #[trigger] picks[j] is Some ==> picks[i] == picks[j],
{
    match spec_candidate(slots) {
        Some(c) => {
            assert forall|i: int, j: int|
                0 <= i < picks.len() && 0 <= j < picks.len() && #[trigger] picks[i] is Some
                    && #[trigger] picks[j] is Some implies picks[i] == picks[j] by {
                assert(picks[i] == spec_exact_pick(slots[i], c, 0));
                assert(picks[j] == spec_exact_pick(slots[j], c, 0));
            }
        },
        None => {
            assert(false);
        },
    }
}

/// Law: under exact match with wait-for-all, an emitted combined input
/// has every required member present.
pub proof fn lemma_exact_match_all_present(
    cfg: TimestampSynchronizer,
    slots: Seq<Seq<DataVersion>>,
    picks: Seq<Option<DataVersion>>,
)
    requires
        cfg.wait_for_all,
        cfg.spec_synchronize(slots) == Some(picks),
    ensures
        forall|k: int| 0 <= k < picks.len() ==> #[trigger] picks[k] is Some,
{
    match spec_candidate(slots) {
        Some(c) => {
        },
        None => {
            assert(false);
        },
    }
}

/// Law: under the windowed policy with wait-for-all, a combined input
/// emitted before the maximum wait elapses has every member present.
pub proof fn lemma_realtime_wait_all_members_present(
    cfg: RealTimeSynchronizer,
    slots: Seq<Seq<DataVersion>>,
    reference_ns: u128,
    picks: Seq<Option<DataVersion>>,
)
    requires
        cfg.wait_for_all,
        cfg.spec_synchronize(slots, reference_ns, false) == Some(picks),
    ensures
        forall|k: int| 0 <= k < picks.len() ==> #[trigger] picks[k] is Some,
{
}

/// Law: the windowed policy never holds a tick open past the maximum
/// wait. Once it has elapsed, one eligible packet anywhere forces an
/// emission, whatever the wait-for-all setting: the policy never blocks
/// indefinitely.
pub proof fn lemma_realtime_max_wait_emits(
    cfg: RealTimeSynchronizer,
    slots: Seq<Seq<DataVersion>>,
    reference_ns: u128,
    present: int,
)
    requires
        0 <= present < slots.len(),
        spec_window_pick(slots[present], reference_ns, cfg.tolerance_ns, cfg.prefer_newest)
            is Some,
    ensures
        cfg.spec_synchronize(slots, reference_ns, true) is Some,
{
    let picks = Seq::new(
        slots.len(),
        |k: int| spec_window_pick(slots[k], reference_ns, cfg.tolerance_ns, cfg.prefer_newest),
    );
    assert(picks[present] is Some);
}

/// Law: the exact-match reference is the minimum over non-empty slots of
/// that slot's newest version — it is the newest version of some slot,
/// and no non-empty slot has an older newest version. It is absent only
/// when every slot is empty.
pub proof fn lemma_candidate_is_min_of_newest(slots: Seq<Seq<DataVersion>>)
    ensures
        match spec_candidate(slots) {
            Some(c) => (exists|k: int|
                0 <= k < slots.len() && (#[trigger] slots[k]).len() > 0 && slots[k].last() == c)
                && (forall|k: int|
                0 <= k < slots.len() && (#[trigger] slots[k]).len() > 0 ==> c.spec_le(
                    slots[k].last(),
                )),
            None => forall|k: int| 0 <= k < slots.len() ==> (#[trigger] slots[k]).len() == 0,
        },
    decreases slots.len(),
{
    if slots.len() > 0 {
        let head = slots.drop_last();
        lemma_candidate_is_min_of_newest(head);
        assert(forall|k: int| 0 <= k < head.len() ==> #[trigger] head[k] == slots[k]);
        let slot = slots.last();
        match spec_candidate(head) {
            Some(w) => {
                let kw = choose|k: int|
                    0 <= k < head.len() && (#[trigger] head[k]).len() > 0 && head[k].last() == w;
                match spec_candidate(slots) {
                    Some(c) => {
                        if slot.len() == 0 || !slot.last().spec_lt(w) {
                            assert(slots[kw].len() > 0 && slots[kw].last() == c);
                        } else {
                            assert(slots[slots.len() - 1].len() > 0 && slots[slots.len()
                                - 1].last() == c);
                        }
                        assert forall|k: int|
                            0 <= k < slots.len() && (#[trigger] slots[k]).len() > 0 implies c.spec_le(
                            slots[k].last(),
                        ) by {
                            if k < slots.len() - 1 {
                                assert(head[k] == slots[k]);
                                assert(w.spec_le(head[k].last()));
                            }
                        }
                    },
                    None => {
                        assert(false);
                    },
                }
            },
            None => {
                if slot.len() == 0 {
                    assert forall|k: int| 0 <= k < slots.len() implies (#[trigger] slots[k]).len()
                        == 0 by {
                        if k < slots.len() - 1 {
                            assert(head[k].len() == 0);
                        }
                    }
                } else {
                    let c = slot.last();
                    assert(slots[slots.len() - 1].len() > 0 && slots[slots.len() - 1].last() == c);
                    assert forall|k: int|
                        0 <= k < slots.len() && (#[trigger] slots[k]).len() > 0 implies c.spec_le(
                        slots[k].last(),
                    ) by {
                        if k < slots.len() - 1 {
                            assert(head[k].len() == 0);
                        }
                    }
                }
            },
        }
    }
}

/// Law: the windowed policy without wait-for-all resolves a slot starved
/// beyond the window to "missing" and still emits in the same tick, as
/// long as any slot holds an eligible packet.
pub proof fn lemma_realtime_starved_member_missing(
    cfg: RealTimeSynchronizer,
    slots: Seq<Seq<DataVersion>>,
    reference_ns: u128,
    starved: int,
    present: int,
)
    requires
        !cfg.wait_for_all,
        0 <= starved < slots.len(),
        0 <= present < slots.len(),
        forall|j: int|
            0 <= j < slots[starved].len() ==> ts_dist(
                (#[trigger] slots[starved][j]).timestamp_ns,
                reference_ns,
            ) > cfg.tolerance_ns,
        spec_window_pick(slots[present], reference_ns, cfg.tolerance_ns, cfg.prefer_newest)
            is Some,
    ensures
        cfg.spec_synchronize(slots, reference_ns, false) matches Some(picks) && picks[starved]
            is None,
{
    let picks = Seq::new(
        slots.len(),
        |k: int| spec_window_pick(slots[k], reference_ns, cfg.tolerance_ns, cfg.prefer_newest),
    );
    assert(picks[present] is Some);
    lemma_starved_slot_picks_nothing(
        slots[starved],
        reference_ns,
        cfg.tolerance_ns,
        cfg.prefer_newest,
    );
    assert(picks[starved] is None);
}

/// Law: what the windowed policy selects from a slot is a buffered
/// version inside the tolerance window, and no buffered version lies
/// closer to the reference time; a slot that resolves to "missing" holds
/// no version inside the window at all.
pub proof fn lemma_window_pick_closest(
    slot: Seq<DataVersion>,
    t: u128,
    tolerance_ns: u128,
    prefer_newest: bool,
)
    ensures
        match spec_window_pick(slot, t, tolerance_ns, prefer_newest) {
            Some(w) => {
                &&& slot.contains(w)
                &&& ts_dist(w.timestamp_ns, t) <= tolerance_ns
                &&& forall|j: int|
                    0 <= j < slot.len() ==> ts_dist(w.timestamp_ns, t) <= ts_dist(
                        (#[trigger] slot[j]).timestamp_ns,
                        t,
                    )
            },
            None => forall|j: int|
                0 <= j < slot.len() ==> ts_dist((#[trigger] slot[j]).timestamp_ns, t)
                    > tolerance_ns,
        },
{
    lemma_closest_is_member(slot, t, prefer_newest);
    lemma_closest_is_closest(slot, t, prefer_newest);
    match spec_closest(slot, t, prefer_newest) {
        Some(w) => {
            if ts_dist(w.timestamp_ns, t) > tolerance_ns {
                assert forall|j: int| 0 <= j < slot.len() implies ts_dist(
                    (#[trigger] slot[j]).timestamp_ns,
                    t,
                ) > tolerance_ns by {
                    assert(ts_dist(w.timestamp_ns, t) <= ts_dist(slot[j].timestamp_ns, t));
                }
            }
        },
        None => {},
    }
}

/// A slot with no version inside the window resolves to "missing".
pub proof fn lemma_starved_slot_picks_nothing(
    slot: Seq<DataVersion>,
    t: u128,
    tolerance_ns: u128,
    prefer_newest: bool,
)
    requires
        forall|j: int| 0 <= j < slot.len() ==> ts_dist((#[trigger] slot[j]).timestamp_ns, t)
            > tolerance_ns,
    ensures
        spec_window_pick(slot, t, tolerance_ns, prefer_newest) is None,
{
    lemma_closest_is_member(slot, t, prefer_newest);
    match spec_closest(slot, t, prefer_newest) {
        Some(w) => {
            let j = choose|j: int| 0 <= j < slot.len() && slot[j] == w;
            assert(ts_dist(slot[j].timestamp_ns, t) > tolerance_ns);
        },
        None => {},
    }
}

} // verus!
