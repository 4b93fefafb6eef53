//! The schedule index: which post is due when, kept as two views of one set
//! of entries.

use vstd::prelude::*;
use crate::forward::{attached, detached, is_due_list, pending_after, Bucket, ForwardMap};
use crate::instant::Instant;
use crate::mapfacts::lemma_map_eq;
use crate::reverse::{later_than, ReverseMap};

verus! {

/// The paths that `schedule` holds at instant `t`.
pub open spec fn paths_at(schedule: Map<Seq<char>, int>, t: int) -> Set<Seq<char>> {
    Set::new(|p: Seq<char>| schedule.dom().contains(p) && schedule[p] == t)
}

/// Some path of `schedule` is scheduled at `t`.
pub open spec fn has_instant(schedule: Map<Seq<char>, int>, t: int) -> bool {
    exists|p: Seq<char>| #[trigger] schedule.dom().contains(p) && schedule[p] == t
}

/// The entries of `schedule` grouped by instant.
pub open spec fn forward_of(schedule: Map<Seq<char>, int>) -> Map<int, Set<Seq<char>>> {
    Map::new(|t: int| has_instant(schedule, t), |t: int| paths_at(schedule, t))
}

/// The entries of `schedule` that are not yet due at `now`.
pub open spec fn still_pending(schedule: Map<Seq<char>, int>, now: int) -> Map<Seq<char>, int> {
    later_than(schedule, now)
}

/// The two views describe the same entries: every path of `reverse` stands
/// in the bucket of its instant, every path of a bucket is in `reverse` at
/// that bucket's instant, and no bucket is empty.
pub open spec fn consistent(
    forward: Map<int, Set<Seq<char>>>,
    reverse: Map<Seq<char>, int>,
) -> bool {
    &&& forall|p: Seq<char>| #[trigger]
        reverse.dom().contains(p) ==> forward.dom().contains(reverse[p]) && forward[reverse[p]].contains(
            p,
        )
    &&& forall|t: int, p: Seq<char>|
        forward.dom().contains(t) && #[trigger] forward[t].contains(p) ==> reverse.dom().contains(p)
            && reverse[p] == t
    &&& forall|t: int| #[trigger]
        forward.dom().contains(t) ==> exists|p: Seq<char>| #[trigger] forward[t].contains(p)
}

/// Consistent views determine each other: the forward view is the reverse
/// view grouped by instant.
pub proof fn lemma_forward_is_grouping(
    forward: Map<int, Set<Seq<char>>>,
    reverse: Map<Seq<char>, int>,
)
    requires
        consistent(forward, reverse),
    ensures
        forward == forward_of(reverse),
{
    let g = forward_of(reverse);
    assert forall|t: int| #[trigger] forward.dom().contains(t) implies g.dom().contains(t) by {
        let p = choose|p: Seq<char>| #[trigger] forward[t].contains(p);
        assert(reverse.dom().contains(p) && reverse[p] == t);
    }
    assert forall|t: int| #[trigger] g.dom().contains(t) implies forward.dom().contains(t)
        && forward[t] == g[t] by {
        let p = choose|p: Seq<char>| #[trigger] reverse.dom().contains(p) && reverse[p] == t;
        assert(forward.dom().contains(t));
        assert(forward[t] =~= paths_at(reverse, t)) by {
            assert forall|q: Seq<char>| #[trigger] forward[t].contains(q) implies paths_at(
                reverse,
                t,
            ).contains(q) by {}
            assert forall|q: Seq<char>| #[trigger] paths_at(reverse, t).contains(q) implies forward[t].contains(
                q,
            ) by {
                assert(reverse.dom().contains(q));
            }
        }
    }
    lemma_map_eq(forward, g);
}

/// Bidirectional index between a post's path and its scheduled instant.
pub struct ScheduleIndex {
    forward: ForwardMap,
    reverse: ReverseMap,
}

impl View for ScheduleIndex {
    type V = Map<Seq<char>, int>;

    closed spec fn view(&self) -> Map<Seq<char>, int> {
        self.reverse@
    }
}

impl ScheduleIndex {
    /// The forward view: instant to the set of paths scheduled then.
    pub closed spec fn forward(&self) -> Map<int, Set<Seq<char>>> {
        self.forward@
    }

    /// The reverse view: path to instant. It is the view of the index.
    pub closed spec fn reverse(&self) -> Map<Seq<char>, int> {
        self.reverse@
    }

    /// Both views are well formed and describe the same entries.
    pub closed spec fn wf(&self) -> bool {
        &&& self.forward.wf()
        &&& self.reverse.wf()
        &&& consistent(self.forward@, self.reverse@)
    }

    /// Index consistency: in a well-formed index the two views agree and no
    /// bucket is empty, so the forward view is the reverse view grouped by
    /// instant.
    pub proof fn lemma_views_agree(&self)
        requires
            self.wf(),
        ensures
            self.reverse() == self@,
            consistent(self.forward(), self.reverse()),
            self.forward() == forward_of(self@),
    {
        lemma_forward_is_grouping(self.forward@, self.reverse@);
    }

    /// An index with nothing scheduled.
    pub fn new() -> (r: ScheduleIndex)
        ensures
            r.wf(),
            r@ == Map::<Seq<char>, int>::empty(),
    {
        ScheduleIndex { forward: ForwardMap::new(), reverse: ReverseMap::new() }
    }

    /// Whether nothing is scheduled.
    pub fn is_empty(&self) -> (r: bool)
        requires
            self.wf(),
        ensures
            r == (self@ == Map::<Seq<char>, int>::empty()),
    {
        let n = self.reverse.len();
        proof {
            if n == 0 {
                assert(self@.dom() =~= Set::<Seq<char>>::empty()) by {
                    self@.dom().lemma_len0_is_empty();
                }
                assert(self@ =~= Map::<Seq<char>, int>::empty());
            }
        }
        n == 0
    }

    /// Number of scheduled paths.
    pub fn len(&self) -> (n: usize)
        requires
            self.wf(),
        ensures
            self@.dom().finite(),
            n == self@.len(),
    {
        self.reverse.len()
    }

    /// The instant `path` is scheduled at, if it is scheduled.
    pub fn instant_of(&self, path: &str) -> (r: Option<Instant>)
        requires
            self.wf(),
        ensures
            match r {
                Some(t) => self@.contains_key(path@) && self@[path@] == t@,
                None => !self@.contains_key(path@),
            },
    {
        self.reverse.get(path)
    }

    /// Schedules `path` at `instant`. A path already scheduled moves from its
    /// old bucket to the new one; with the instant unchanged nothing changes.
    pub fn upsert(&mut self, path: &str, instant: Instant)
        requires
            old(self).wf(),
        ensures
            final(self).wf(),
            final(self)@ == old(self)@.insert(path@, instant@),
    {
        let ghost f0 = self.forward@;
        let ghost r0 = self.reverse@;
        let ghost p = path@;
        let ghost t = instant@;
        match self.reverse.get(path) {
            Some(previous) => {
                if previous.nanos == instant.nanos {
                    assert(r0.insert(p, t) =~= r0);
                    return ;
                }
                self.forward.detach(path, previous);
                let ghost f1 = self.forward@;
                self.forward.attach(path, instant);
                self.reverse.insert(path, instant);
                proof {
                    let f2 = self.forward@;
                    let r2 = self.reverse@;
                    let u0 = previous@;
                    assert(f0.dom().contains(u0) && f0[u0].contains(p));
                    assert(f1 == detached(f0, p, u0));
                    assert(f2 == attached(f1, p, t));
                    assert forall|q: Seq<char>| #[trigger] r2.dom().contains(q) implies f2.dom().contains(
                        r2[q],
                    ) && f2[r2[q]].contains(q) by {
                        if q != p {
                            assert(r0.dom().contains(q));
                            let u = r0[q];
                            assert(f0[u].contains(q));
                            if u == u0 {
                                assert(f0[u0].remove(p).contains(q));
                            }
                        }
                    }
                    assert forall|u: int, q: Seq<char>|
                        f2.dom().contains(u) && #[trigger] f2[u].contains(q) implies r2.dom().contains(
                        q,
                    ) && r2[q] == u by {
                        if u == t {
                            if q != p {
                                assert(f1.dom().contains(t) && f1[t].contains(q));
                                assert(f0[t].contains(q));
                            }
                        } else {
                            assert(f1.dom().contains(u) && f1[u].contains(q));
                            if u == u0 {
                                assert(f0[u0].contains(q));
                            } else {
                                assert(f0[u].contains(q));
                            }
                        }
                    }
                    self.forward.lemma_buckets_inhabited();
                }
            },
            None => {
                self.forward.attach(path, instant);
                self.reverse.insert(path, instant);
                proof {
                    let f2 = self.forward@;
                    let r2 = self.reverse@;
                    assert(f2 == attached(f0, p, t));
                    assert forall|q: Seq<char>| #[trigger] r2.dom().contains(q) implies f2.dom().contains(
                        r2[q],
                    ) && f2[r2[q]].contains(q) by {
                        if q != p {
                            assert(r0.dom().contains(q));
                            assert(f0[r0[q]].contains(q));
                        }
                    }
                    assert forall|u: int, q: Seq<char>|
                        f2.dom().contains(u) && #[trigger] f2[u].contains(q) implies r2.dom().contains(
                        q,
                    ) && r2[q] == u by {
                        if u == t {
                            if q != p {
                                assert(f0.dom().contains(t) && f0[t].contains(q));
                            }
                        } else {
                            assert(f0[u].contains(q));
                        }
                    }
                    self.forward.lemma_buckets_inhabited();
                }
            },
        }
    }

    /// Unschedules `path`, returning the instant it was scheduled at. Nothing
    /// changes when `path` is not scheduled.
    pub fn remove(&mut self, path: &str) -> (r: Option<Instant>)
        requires
            old(self).wf(),
        ensures
            final(self).wf(),
            final(self)@ == old(self)@.remove(path@),
            match r {
                Some(t) => old(self)@.contains_key(path@) && old(self)@[path@] == t@,
                None => !old(self)@.contains_key(path@),
            },
    {
        let ghost f0 = self.forward@;
        let ghost r0 = self.reverse@;
        let ghost p = path@;
        match self.reverse.remove(path) {
            Some(previous) => {
                self.forward.detach(path, previous);
                proof {
                    let f2 = self.forward@;
                    let r2 = self.reverse@;
                    let u0 = previous@;
                    assert(r0.dom().contains(p));
                    assert(f0.dom().contains(u0) && f0[u0].contains(p));
                    assert(f2 == detached(f0, p, u0));
                    assert forall|q: Seq<char>| #[trigger] r2.dom().contains(q) implies f2.dom().contains(
                        r2[q],
                    ) && f2[r2[q]].contains(q) by {
                        assert(r0.dom().contains(q));
                        let u = r0[q];
                        assert(f0[u].contains(q));
                        if u == u0 {
                            assert(f0[u0].remove(p).contains(q));
                        }
                    }
                    assert forall|u: int, q: Seq<char>|
                        f2.dom().contains(u) && #[trigger] f2[u].contains(q) implies r2.dom().contains(
                        q,
                    ) && r2[q] == u by {
                        assert(f0.dom().contains(u) && f0[u].contains(q));
                    }
                    self.forward.lemma_buckets_inhabited();
                }
                Some(previous)
            },
            None => None,
        }
    }

    /// The nearest pending instant with the paths scheduled then, or `None`
    /// when nothing is scheduled.
    pub fn nearest(&self) -> (r: Option<&Bucket>)
        requires
            self.wf(),
        ensures
            match r {
                None => self@ == Map::<Seq<char>, int>::empty(),
                Some(b) => {
                    &&& b.wf()
                    &&& has_instant(self@, b.instant@)
                    &&& b.path_set() == paths_at(self@, b.instant@)
                    &&& forall|p: Seq<char>| #[trigger]
                        self@.dom().contains(p) ==> b.instant@ <= self@[p]
                },
            },
    {
        let r = self.forward.first();
        proof {
            self.lemma_views_agree();
            match r {
                None => {
                    assert(self@ =~= Map::<Seq<char>, int>::empty()) by {
                        assert forall|p: Seq<char>| !(#[trigger] self@.dom().contains(p)) by {
                            if self@.dom().contains(p) {
                                assert(self.forward@.dom().contains(self@[p]));
                            }
                        }
                    }
                },
                Some(b) => {
                    assert(forward_of(self@).dom().contains(b.instant@));
                    assert forall|p: Seq<char>| #[trigger] self@.dom().contains(p) implies b.instant@
                        <= self@[p] by {
                        assert(self.forward@.dom().contains(self@[p]));
                    }
                },
            }
        }
        r
    }

    /// Removes and returns every bucket whose instant is at or before `now`,
    /// in ascending order of instant. What stays is exactly what is not yet
    /// due; when nothing is scheduled after `now`, the index ends empty.
    pub fn take_due(&mut self, now: Instant) -> (due: Vec<Bucket>)
        requires
            old(self).wf(),
        ensures
            final(self).wf(),
            final(self)@ == still_pending(old(self)@, now@),
            is_due_list(due@, forward_of(old(self)@), now@),
            (forall|p: Seq<char>| #[trigger] old(self)@.dom().contains(p) ==> old(self)@[p] <= now@)
                ==> final(self)@ == Map::<Seq<char>, int>::empty(),
    {
        let ghost f0 = self.forward@;
        let ghost r0 = self.reverse@;
        proof {
            self.lemma_views_agree();
        }
        let due = self.forward.take_due(now);
        self.reverse.take_until(now);
        proof {
            let f2 = self.forward@;
            let r2 = self.reverse@;
            let goal = still_pending(r0, now@);
            assert(r2 == goal);
            assert(f2 == pending_after(f0, now@));
            assert forall|q: Seq<char>| #[trigger] r2.dom().contains(q) implies f2.dom().contains(
                r2[q],
            ) && f2[r2[q]].contains(q) by {
                assert(r0.dom().contains(q));
                assert(f0[r0[q]].contains(q));
            }
            assert forall|u: int, q: Seq<char>|
                f2.dom().contains(u) && #[trigger] f2[u].contains(q) implies r2.dom().contains(q)
                && r2[q] == u by {
                assert(f0.dom().contains(u) && f0[u].contains(q));
            }
            self.forward.lemma_buckets_inhabited();
            if forall|p: Seq<char>| #[trigger] r0.dom().contains(p) ==> r0[p] <= now@ {
                assert(goal =~= Map::<Seq<char>, int>::empty());
            }
        }
        due
    }
}

/// Rescheduling a path at the instant it already has changes nothing: a
/// second `upsert` with the same arguments leaves both views as the first
/// left them.
pub proof fn lemma_upsert_idempotent(
    start: ScheduleIndex,
    once: ScheduleIndex,
    twice: ScheduleIndex,
    path: Seq<char>,
    t: int,
)
    requires
        once.wf(),
        twice.wf(),
        once@ == start@.insert(path, t),
        twice@ == once@.insert(path, t),
    ensures
        twice@ == once@,
        twice.reverse() == once.reverse(),
        twice.forward() == once.forward(),
{
    assert(once@.insert(path, t) =~= once@);
    once.lemma_views_agree();
    twice.lemma_views_agree();
}

/// Taking what is due at a `now` that no stored instant lies after hands
/// out every entry, each in the bucket of its instant, and leaves nothing.
pub proof fn lemma_take_due_takes_all(schedule: Map<Seq<char>, int>, due: Seq<Bucket>, now: int)
    requires
        is_due_list(due, forward_of(schedule), now),
        forall|p: Seq<char>| #[trigger] schedule.dom().contains(p) ==> schedule[p] <= now,
    ensures
        still_pending(schedule, now) == Map::<Seq<char>, int>::empty(),
        forall|p: Seq<char>| #[trigger]
            schedule.dom().contains(p) ==> exists|i: int|
                0 <= i < due.len() && (#[trigger] due[i]).instant@ == schedule[p]
                    && due[i].path_set().contains(p),
        forall|i: int, p: Seq<char>|
            0 <= i < due.len() && #[trigger] due[i].path_set().contains(p)
                ==> schedule.dom().contains(p) && schedule[p] == due[i].instant@,
{
    assert(still_pending(schedule, now) =~= Map::<Seq<char>, int>::empty());
    let f = forward_of(schedule);
    assert forall|p: Seq<char>| #[trigger] schedule.dom().contains(p) implies exists|i: int|
        0 <= i < due.len() && (#[trigger] due[i]).instant@ == schedule[p]
            && due[i].path_set().contains(p) by {
        let t = schedule[p];
        assert(has_instant(schedule, t));
        assert(f.dom().contains(t));
        let i = choose|i: int| 0 <= i < due.len() && (#[trigger] due[i]).instant@ == t;
        assert(paths_at(schedule, t).contains(p));
    }
    assert forall|i: int, p: Seq<char>|
        0 <= i < due.len() && #[trigger] due[i].path_set().contains(p) implies schedule.dom().contains(
        p,
    ) && schedule[p] == due[i].instant@ by {
        assert(due[i].wf());
        assert(paths_at(schedule, due[i].instant@).contains(p));
    }
}

} // verus!
