//! The reverse view of the schedule: from a post's path to its instant.

use vstd::prelude::*;
use crate::instant::Instant;
use crate::mapfacts::lemma_map_eq;
use crate::text::{
    chars_of, comes_before, lemma_before_irreflexive, lemma_before_transitive, place_of, Place,
};

verus! {

/// One scheduled post: its path and the instant it is due.
pub struct Entry {
    pub path: String,
    pub instant: Instant,
}

/// Mapping from path to scheduled instant, each path present at most once.
/// The entries stand in the order of their paths, so that a path is found
/// by halving.
pub struct ReverseMap {
    entries: Vec<Entry>,
}

impl View for ReverseMap {
    type V = Map<Seq<char>, int>;

    closed spec fn view(&self) -> Map<Seq<char>, int> {
        Map::new(
            |p: Seq<char>| exists|i: int| self.holds(i, p),
            |p: Seq<char>| self.entries@[choose|i: int| self.holds(i, p)].instant@,
        )
    }
}

impl ReverseMap {
    /// Slot `i` exists and is the slot of `path`.
    pub closed spec fn holds(&self, i: int, path: Seq<char>) -> bool {
        0 <= i < self.entries@.len() && self.entries@[i].path@ == path
    }

    /// The slots stand in the order of their paths, each path before the
    /// next: no path occupies two slots.
    pub closed spec fn wf(&self) -> bool {
        forall|i: int, j: int|
            0 <= i < j < self.entries@.len() ==> comes_before(
                self.entries@[i].path@,
                self.entries@[j].path@,
            )
    }

    proof fn lemma_distinct(&self)
        requires
            self.wf(),
        ensures
            forall|i: int, j: int|
                0 <= i < j < self.entries@.len() ==> self.entries@[i].path@
                    != self.entries@[j].path@,
    {
        assert forall|i: int, j: int| 0 <= i < j < self.entries@.len() implies self.entries@[i].path@
            != self.entries@[j].path@ by {
            assert(comes_before(self.entries@[i].path@, self.entries@[j].path@));
            lemma_before_irreflexive(self.entries@[i].path@, 0);
        }
    }

    proof fn lemma_slot(&self, i: int)
        requires
            self.wf(),
            0 <= i < self.entries@.len(),
        ensures
            self@.contains_key(self.entries@[i].path@),
            self@[self.entries@[i].path@] == self.entries@[i].instant@,
    {
        self.lemma_distinct();
        let p = self.entries@[i].path@;
        assert(self.holds(i, p));
        let c = choose|k: int| self.holds(k, p);
        assert(self.holds(c, p));
        if c < i {
            assert(self.entries@[c].path@ != self.entries@[i].path@);
        } else if i < c {
            assert(self.entries@[i].path@ != self.entries@[c].path@);
        }
    }

    /// Every instant of the view is one that an `Instant` can hold.
    pub proof fn lemma_instants_in_range(&self)
        requires
            self.wf(),
        ensures
            forall|p: Seq<char>| #[trigger]
                self@.dom().contains(p) ==> i128::MIN <= self@[p] <= i128::MAX,
    {
        assert forall|p: Seq<char>| #[trigger] self@.dom().contains(p) implies i128::MIN
            <= self@[p] <= i128::MAX by {
            let i = choose|i: int| self.holds(i, p);
            assert(self.holds(i, p));
            self.lemma_slot(i);
        }
    }

    /// A reverse view without an entry.
    pub fn new() -> (r: ReverseMap)
        ensures
            r.wf(),
            r@ == Map::<Seq<char>, int>::empty(),
    {
        let r = ReverseMap { entries: Vec::new() };
        assert(r@ =~= Map::<Seq<char>, int>::empty());
        r
    }

    /// Number of scheduled paths.
    pub fn len(&self) -> (n: usize)
        requires
            self.wf(),
        ensures
            n == self@.len(),
            self@.dom().finite(),
    {
        proof {
            self.lemma_len(self.entries@.len() as int);
            assert(self.prefix_dom(self.entries@.len() as int) =~= self@.dom()) by {
                assert forall|p: Seq<char>| self@.dom().contains(p) implies self.prefix_dom(
                    self.entries@.len() as int,
                ).contains(p) by {
                    let i = choose|i: int| self.holds(i, p);
                    assert(self.holds(i, p));
                }
            }
        }
        self.entries.len()
    }

    spec fn prefix_dom(&self, n: int) -> Set<Seq<char>> {
        Set::new(|p: Seq<char>| exists|i: int| 0 <= i < n && self.holds(i, p))
    }

    proof fn lemma_len(&self, n: int)
        requires
            self.wf(),
            0 <= n <= self.entries@.len(),
        ensures
            self.prefix_dom(n).finite(),
            self.prefix_dom(n).len() == n,
        decreases n,
    {
        if n == 0 {
            assert(self.prefix_dom(0) =~= Set::<Seq<char>>::empty());
        } else {
            self.lemma_len(n - 1);
            self.lemma_distinct();
            let p = self.entries@[n - 1].path@;
            assert(self.holds(n - 1, p));
            assert(!self.prefix_dom(n - 1).contains(p)) by {
                if self.prefix_dom(n - 1).contains(p) {
                    let i = choose|i: int| 0 <= i < n - 1 && self.holds(i, p);
                    assert(self.entries@[i].path@ != self.entries@[n - 1].path@);
                }
            }
            assert(self.prefix_dom(n) =~= self.prefix_dom(n - 1).insert(p)) by {
                assert forall|q: Seq<char>| self.prefix_dom(n).contains(q) implies self.prefix_dom(
                    n - 1,
                ).insert(p).contains(q) by {
                    let i = choose|i: int| 0 <= i < n && self.holds(i, q);
                    if i < n - 1 {
                        assert(self.holds(i, q));
                    }
                }
                assert forall|q: Seq<char>| self.prefix_dom(n - 1).insert(p).contains(
                    q,
                ) implies self.prefix_dom(n).contains(q) by {
                    if q == p {
                        assert(self.holds(n - 1, q));
                    } else {
                        let i = choose|i: int| 0 <= i < n - 1 && self.holds(i, q);
                        assert(self.holds(i, q));
                    }
                }
            }
        }
    }

    /// Looks for `path` by halving: whether it has a slot, and the slot it has
    /// or would have.
    fn search(&self, path: &Vec<char>) -> (r: (bool, usize))
        requires
            self.wf(),
        ensures
            r.1 <= self.entries@.len(),
            r.0 ==> self.holds(r.1 as int, path@),
            !r.0 ==> !self@.contains_key(path@),
            !r.0 ==> forall|k: int| 0 <= k < r.1 ==> comes_before(self.entries@[k].path@, path@),
            !r.0 ==> forall|k: int|
                r.1 <= k < self.entries@.len() ==> comes_before(path@, self.entries@[k].path@),
    {
        let mut low: usize = 0;
        let mut high: usize = self.entries.len();
        while low < high
            invariant
                self.wf(),
                low <= high <= self.entries@.len(),
                forall|k: int| 0 <= k < low ==> comes_before(self.entries@[k].path@, path@),
                forall|k: int|
                    high <= k < self.entries@.len() ==> comes_before(path@, self.entries@[k].path@),
            decreases high - low,
        {
            let middle: usize = low + (high - low) / 2;
            let there = chars_of(self.entries[middle].path.as_str());
            match place_of(&there, path) {
                Place::Same => {
                    return (true, middle);
                },
                Place::Before => {
                    assert forall|k: int| 0 <= k < middle + 1 implies comes_before(
                        self.entries@[k].path@,
                        path@,
                    ) by {
                        if k < middle {
                            assert(comes_before(
                                self.entries@[k].path@,
                                self.entries@[middle as int].path@,
                            ));
                            lemma_before_transitive(self.entries@[k].path@, there@, path@, 0);
                        }
                    }
                    low = middle + 1;
                },
                Place::After => {
                    assert forall|k: int| middle <= k < self.entries@.len() implies comes_before(
                        path@,
                        self.entries@[k].path@,
                    ) by {
                        if middle < k {
                            assert(comes_before(
                                self.entries@[middle as int].path@,
                                self.entries@[k].path@,
                            ));
                            lemma_before_transitive(path@, there@, self.entries@[k].path@, 0);
                        }
                    }
                    high = middle;
                },
            }
        }
        proof {
            lemma_before_irreflexive(path@, 0);
            assert forall|k: int| !self.holds(k, path@) by {
                if self.holds(k, path@) {
                    if k < low {
                        assert(comes_before(self.entries@[k].path@, path@));
                    } else {
                        assert(comes_before(path@, self.entries@[k].path@));
                    }
                }
            }
        }
        (false, low)
    }

    /// The instant `path` is scheduled at, if it is scheduled.
    pub fn get(&self, path: &str) -> (r: Option<Instant>)
        requires
            self.wf(),
        ensures
            match r {
                Some(t) => self@.contains_key(path@) && self@[path@] == t@,
                None => !self@.contains_key(path@),
            },
    {
        let (found, i) = self.search(&chars_of(path));
        if found {
            proof {
                self.lemma_slot(i as int);
            }
            Some(self.entries[i].instant)
        } else {
            None
        }
    }

    /// Schedules `path` at `instant`, replacing any instant it had.
    pub fn insert(&mut self, path: &str, instant: Instant)
        requires
            old(self).wf(),
        ensures
            final(self).wf(),
            final(self)@ == old(self)@.insert(path@, instant@),
    {
        let owned = path.to_owned();
        let (is_there, i) = self.search(&chars_of(path));
        let found = if is_there {
            Some(i)
        } else {
            None
        };
        let ghost before = *self;
        match found {
            Some(i) => {
                self.entries.remove(i);
                self.entries.insert(i, Entry { path: owned, instant });
                assert(self.wf()) by {
                    assert forall|a: int, b: int| 0 <= a < b < self.entries@.len() implies comes_before(
                        self.entries@[a].path@,
                        self.entries@[b].path@,
                    ) by {
                        assert(self.entries@[a].path@ == before.entries@[a].path@);
                        assert(self.entries@[b].path@ == before.entries@[b].path@);
                        assert(comes_before(before.entries@[a].path@, before.entries@[b].path@));
                    }
                }
                assert(self@ =~= before@.insert(path@, instant@)) by {
                    assert forall|p: Seq<char>| #[trigger] self@.dom().contains(p) implies before@.insert(
                        path@,
                        instant@,
                    ).dom().contains(p) by {
                        let k = choose|k: int| self.holds(k, p);
                        assert(before.holds(k, p));
                    }
                    assert forall|p: Seq<char>| #[trigger]
                        before@.insert(path@, instant@).dom().contains(p) implies self@.dom().contains(
                        p,
                    ) && self@[p] == before@.insert(path@, instant@)[p] by {
                        if p == path@ {
                            assert(self.holds(i as int, p));
                            self.lemma_slot(i as int);
                        } else {
                            let k = choose|k: int| before.holds(k, p);
                            assert(self.holds(k, p));
                            self.lemma_slot(k);
                            before.lemma_slot(k);
                        }
                    }
                    lemma_map_eq(self@, before@.insert(path@, instant@));
                }
            },
            None => {
                self.entries.insert(i, Entry { path: owned, instant });
                assert(self.wf()) by {
                    assert forall|a: int, b: int| 0 <= a < b < self.entries@.len() implies comes_before(
                        self.entries@[a].path@,
                        self.entries@[b].path@,
                    ) by {
                        let a0 = if a < i { a } else { a - 1 };
                        let b0 = if b < i { b } else { b - 1 };
                        if a != i && b != i {
                            assert(self.entries@[a] == before.entries@[a0]);
                            assert(self.entries@[b] == before.entries@[b0]);
                            assert(comes_before(before.entries@[a0].path@, before.entries@[b0].path@));
                        } else if a == i {
                            assert(self.entries@[b] == before.entries@[b0]);
                            assert(comes_before(path@, before.entries@[b0].path@));
                        } else {
                            assert(self.entries@[a] == before.entries@[a0]);
                            assert(comes_before(before.entries@[a0].path@, path@));
                        }
                    }
                }
                assert(self@ =~= before@.insert(path@, instant@)) by {
                    assert forall|p: Seq<char>| #[trigger] self@.dom().contains(p) implies before@.insert(
                        path@,
                        instant@,
                    ).dom().contains(p) by {
                        let k = choose|k: int| self.holds(k, p);
                        let k0 = if k < i { k } else { k - 1 };
                        if k != i {
                            assert(before.holds(k0, p));
                        }
                    }
                    assert forall|p: Seq<char>| #[trigger]
                        before@.insert(path@, instant@).dom().contains(p) implies self@.dom().contains(
                        p,
                    ) && self@[p] == before@.insert(path@, instant@)[p] by {
                        if p == path@ {
                            assert(self.holds(i as int, p));
                            self.lemma_slot(i as int);
                        } else {
                            let k = choose|k: int| before.holds(k, p);
                            assert(before.holds(k, p));
                            let k1 = if k < i { k } else { k + 1 };
                            assert(self.holds(k1, p));
                            self.lemma_slot(k1);
                            before.lemma_slot(k);
                        }
                    }
                    lemma_map_eq(self@, before@.insert(path@, instant@));
                }
            },
        }
    }

    /// Unschedules `path`, returning the instant it had.
    pub fn remove(&mut self, path: &str) -> (r: Option<Instant>)
        requires
            old(self).wf(),
        ensures
            final(self).wf(),
            final(self)@ == old(self)@.remove(path@),
            match r {
                Some(t) => old(self)@.contains_key(path@) && old(self)@[path@] == t@,
                None => !old(self)@.contains_key(path@),
            },
    {
        let (is_there, i) = self.search(&chars_of(path));
        let found = if is_there {
            Some(i)
        } else {
            None
        };
        let ghost before = *self;
        match found {
            Some(i) => {
                proof {
                    before.lemma_slot(i as int);
                    before.lemma_distinct();
                }
                let gone = self.entries.remove(i);
                assert(self.wf()) by {
                    assert forall|a: int, b: int| 0 <= a < b < self.entries@.len() implies comes_before(
                        self.entries@[a].path@,
                        self.entries@[b].path@,
                    ) by {
                        let a0 = if a < i { a } else { a + 1 };
                        let b0 = if b < i { b } else { b + 1 };
                        assert(self.entries@[a] == before.entries@[a0]);
                        assert(self.entries@[b] == before.entries@[b0]);
                        assert(comes_before(before.entries@[a0].path@, before.entries@[b0].path@));
                    }
                }
                assert(self@ =~= before@.remove(path@)) by {
                    assert forall|p: Seq<char>| #[trigger] self@.dom().contains(p) implies before@.remove(
                        path@,
                    ).dom().contains(p) && before@.remove(path@)[p] == self@[p] by {
                        let k = choose|k: int| self.holds(k, p);
                        let k0 = if k < i { k } else { k + 1 };
                        assert(before.holds(k0, p));
                        before.lemma_slot(k0);
                        self.lemma_slot(k);
                        if p == path@ {
                            assert(before.holds(i as int, p));
                            if k0 < i {
                                assert(before.entries@[k0].path@ != before.entries@[i as int].path@);
                            } else {
                                assert(before.entries@[i as int].path@ != before.entries@[k0].path@);
                            }
                        }
                    }
                    assert forall|p: Seq<char>| #[trigger]
                        before@.remove(path@).dom().contains(p) implies self@.dom().contains(p) by {
                        let k = choose|k: int| before.holds(k, p);
                        let k1 = if k < i { k } else { k - 1 };
                        assert(self.holds(k1, p));
                    }
                    lemma_map_eq(before@.remove(path@), self@);
                }
                Some(gone.instant)
            },
            None => {
                assert(self@ =~= before@.remove(path@));
                None
            },
        }
    }

    /// Removes and returns every path whose instant is at or before `limit`.
    pub fn take_until(&mut self, limit: Instant) -> (taken: Vec<String>)
        requires
            old(self).wf(),
        ensures
            final(self).wf(),
            final(self)@ == later_than(old(self)@, limit@),
            lists_until(taken@, old(self)@, limit@),
    {
        let ghost before = *self;
        let mut kept: Vec<Entry> = Vec::new();
        let mut taken: Vec<String> = Vec::new();
        let ghost mut kept_from: Seq<int> = Seq::empty();
        let ghost mut taken_from: Seq<int> = Seq::empty();
        let mut i: usize = 0;
        while i < self.entries.len()
            invariant
                *self == before,
                self.wf(),
                i <= self.entries@.len(),
                kept_from.len() == kept@.len(),
                taken_from.len() == taken@.len(),
                forall|a: int|
                    0 <= a < kept@.len() ==> 0 <= #[trigger] kept_from[a] < i && kept@[a].path@
                        == self.entries@[kept_from[a]].path@ && kept@[a].instant
                        == self.entries@[kept_from[a]].instant && kept@[a].instant@ > limit@,
                forall|a: int, b: int| 0 <= a < b < kept@.len() ==> kept_from[a] < kept_from[b],
                forall|a: int|
                    0 <= a < taken@.len() ==> 0 <= #[trigger] taken_from[a] < i && taken@[a]@
                        == self.entries@[taken_from[a]].path@ && self.entries@[taken_from[a]].instant@
                        <= limit@,
                forall|a: int, b: int| 0 <= a < b < taken@.len() ==> taken_from[a] < taken_from[b],
                forall|k: int|
                    0 <= k < i ==> if self.entries@[k].instant@ > limit@ {
                        exists|a: int| 0 <= a < kept@.len() && #[trigger] kept_from[a] == k
                    } else {
                        exists|a: int| 0 <= a < taken@.len() && #[trigger] taken_from[a] == k
                    },
            decreases self.entries@.len() - i,
        {
            let path = self.entries[i].path.clone();
            let instant = self.entries[i].instant;
            let ghost kept0 = kept@;
            let ghost taken0 = taken@;
            let ghost kept_from0 = kept_from;
            let ghost taken_from0 = taken_from;
            if instant.nanos > limit.nanos {
                kept.push(Entry { path, instant });
                proof {
                    kept_from = kept_from.push(i as int);
                    assert forall|k: int| 0 <= k < i + 1 implies if self.entries@[k].instant@
                        > limit@ {
                        exists|a: int| 0 <= a < kept@.len() && #[trigger] kept_from[a] == k
                    } else {
                        exists|a: int| 0 <= a < taken@.len() && #[trigger] taken_from[a] == k
                    } by {
                        if k == i {
                            assert(kept_from[kept0.len() as int] == k);
                        } else if self.entries@[k].instant@ > limit@ {
                            let a = choose|a: int| 0 <= a < kept0.len() && #[trigger] kept_from0[a] == k;
                            assert(kept_from[a] == k);
                        } else {
                            let a = choose|a: int| 0 <= a < taken0.len() && #[trigger] taken_from0[a] == k;
                            assert(taken_from[a] == k);
                        }
                    }
                }
            } else {
                taken.push(path);
                proof {
                    taken_from = taken_from.push(i as int);
                    assert forall|k: int| 0 <= k < i + 1 implies if self.entries@[k].instant@
                        > limit@ {
                        exists|a: int| 0 <= a < kept@.len() && #[trigger] kept_from[a] == k
                    } else {
                        exists|a: int| 0 <= a < taken@.len() && #[trigger] taken_from[a] == k
                    } by {
                        if k == i {
                            assert(taken_from[taken0.len() as int] == k);
                        } else if self.entries@[k].instant@ > limit@ {
                            let a = choose|a: int| 0 <= a < kept0.len() && #[trigger] kept_from0[a] == k;
                            assert(kept_from[a] == k);
                        } else {
                            let a = choose|a: int| 0 <= a < taken0.len() && #[trigger] taken_from0[a] == k;
                            assert(taken_from[a] == k);
                        }
                    }
                }
            }
            i += 1;
        }
        self.entries = kept;
        proof {
            let goal = later_than(before@, limit@);
            before.lemma_distinct();
            assert(self.wf()) by {
                assert forall|a: int, b: int| 0 <= a < b < self.entries@.len() implies comes_before(
                    self.entries@[a].path@,
                    self.entries@[b].path@,
                ) by {
                    assert(kept_from[a] < kept_from[b]);
                    assert(comes_before(
                        before.entries@[kept_from[a]].path@,
                        before.entries@[kept_from[b]].path@,
                    ));
                }
            }
            assert forall|p: Seq<char>| #[trigger] self@.dom().contains(p) implies goal.dom().contains(
                p,
            ) by {
                let a = choose|a: int| self.holds(a, p);
                assert(before.holds(kept_from[a], p));
                before.lemma_slot(kept_from[a]);
            }
            assert forall|p: Seq<char>| #[trigger] goal.dom().contains(p) implies self@.dom().contains(
                p,
            ) && self@[p] == goal[p] by {
                let k = choose|k: int| before.holds(k, p);
                assert(before.holds(k, p));
                before.lemma_slot(k);
                let a = choose|a: int| 0 <= a < kept@.len() && #[trigger] kept_from[a] == k;
                assert(self.holds(a, p));
                self.lemma_slot(a);
            }
            lemma_map_eq(self@, goal);
            assert(lists_until(taken@, before@, limit@)) by {
                assert forall|a: int, b: int| 0 <= a < b < taken@.len() implies taken@[a]@
                    != taken@[b]@ by {
                    assert(taken_from[a] < taken_from[b]);
                    assert(before.entries@[taken_from[a]].path@ != before.entries@[taken_from[b]].path@);
                }
                assert forall|a: int| 0 <= a < taken@.len() implies before@.dom().contains(
                    #[trigger] taken@[a]@,
                ) && before@[taken@[a]@] <= limit@ by {
                    before.lemma_slot(taken_from[a]);
                }
                assert forall|p: Seq<char>| #[trigger]
                    before@.dom().contains(p) && before@[p] <= limit@ implies exists|a: int|
                    0 <= a < taken@.len() && #[trigger] taken@[a]@ == p by {
                    let k = choose|k: int| before.holds(k, p);
                    assert(before.holds(k, p));
                    before.lemma_slot(k);
                    let a = choose|a: int| 0 <= a < taken@.len() && #[trigger] taken_from[a] == k;
                    assert(taken@[a]@ == p);
                }
            }
        }
        taken
    }
}

/// The entries of `schedule` whose instant lies after `limit`.
pub open spec fn later_than(schedule: Map<Seq<char>, int>, limit: int) -> Map<Seq<char>, int> {
    Map::new(
        |p: Seq<char>| schedule.dom().contains(p) && schedule[p] > limit,
        |p: Seq<char>| schedule[p],
    )
}

/// `taken` lists, each once, exactly the paths of `schedule` whose instant
/// is at or before `limit`.
pub open spec fn lists_until(taken: Seq<String>, schedule: Map<Seq<char>, int>, limit: int) -> bool {
    &&& forall|a: int, b: int| 0 <= a < b < taken.len() ==> taken[a]@ != taken[b]@
    &&& forall|a: int|
        0 <= a < taken.len() ==> schedule.dom().contains(#[trigger] taken[a]@) && schedule[taken[a]@]
            <= limit
    &&& forall|p: Seq<char>| #[trigger]
        schedule.dom().contains(p) && schedule[p] <= limit ==> exists|a: int|
            0 <= a < taken.len() && #[trigger] taken[a]@ == p
}

} // verus!
