//! The forward view of the schedule: from an instant to the posts due then,
//! ordered by instant.

use vstd::prelude::*;
use crate::instant::Instant;
use crate::mapfacts::{lemma_inhabited, lemma_map_eq};

verus! {

/// The posts scheduled at one instant.
pub struct Bucket {
    pub instant: Instant,
    pub paths: Vec<String>,
}

impl Bucket {
    /// Slot `k` exists and holds `path`.
    pub open spec fn has_path(&self, k: int, path: Seq<char>) -> bool {
        0 <= k < self.paths@.len() && self.paths@[k]@ == path
    }

    /// The paths of the bucket, as a set.
    pub open spec fn path_set(&self) -> Set<Seq<char>> {
        Set::new(|p: Seq<char>| exists|k: int| self.has_path(k, p))
    }

    /// No path occurs twice.
    pub open spec fn distinct(&self) -> bool {
        forall|a: int, b: int|
            0 <= a < b < self.paths@.len() ==> self.paths@[a]@ != self.paths@[b]@
    }

    /// A bucket holds at least one path, and none twice.
    pub open spec fn wf(&self) -> bool {
        self.paths@.len() > 0 && self.distinct()
    }

    /// The paths in the first `n` slots.
    pub open spec fn prefix_set(&self, n: int) -> Set<Seq<char>> {
        Set::new(|p: Seq<char>| exists|k: int| 0 <= k < n && self.has_path(k, p))
    }

    /// The paths of a bucket are finitely many.
    pub proof fn lemma_finite(&self, n: int)
        requires
            0 <= n <= self.paths@.len(),
        ensures
            self.prefix_set(n).finite(),
        decreases n,
    {
        if n == 0 {
            assert(self.prefix_set(0) =~= Set::<Seq<char>>::empty());
        } else {
            self.lemma_finite(n - 1);
            let p = self.paths@[n - 1]@;
            assert(self.prefix_set(n) =~= self.prefix_set(n - 1).insert(p)) by {
                assert forall|q: Seq<char>| #[trigger]
                    self.prefix_set(n).contains(q) implies self.prefix_set(n - 1).insert(
                    p,
                ).contains(q) by {
                    let k = choose|k: int| 0 <= k < n && self.has_path(k, q);
                    if k < n - 1 {
                        assert(self.has_path(k, q));
                    }
                }
                assert forall|q: Seq<char>| #[trigger]
                    self.prefix_set(n - 1).insert(p).contains(q) implies self.prefix_set(
                    n,
                ).contains(q) by {
                    if q == p {
                        assert(self.has_path(n - 1, q));
                    } else {
                        let k = choose|k: int| 0 <= k < n - 1 && self.has_path(k, q);
                        assert(self.has_path(k, q));
                    }
                }
            }
        }
    }

    fn position(&self, path: &String) -> (r: Option<usize>)
        ensures
            match r {
                Some(k) => self.has_path(k as int, path@),
                None => !self.path_set().contains(path@),
            },
    {
        let mut k: usize = 0;
        while k < self.paths.len()
            invariant
                k <= self.paths@.len(),
                forall|j: int| 0 <= j < k ==> !self.has_path(j, path@),
            decreases self.paths@.len() - k,
        {
            if self.paths[k] == *path {
                return Some(k);
            }
            k += 1;
        }
        None
    }

    /// Adds `path` unless the bucket holds it already.
    fn add(&mut self, path: String)
        requires
            old(self).distinct(),
        ensures
            final(self).wf(),
            final(self).instant == old(self).instant,
            final(self).path_set() == old(self).path_set().insert(path@),
    {
        let ghost before = *self;
        let ghost p = path@;
        match self.position(&path) {
            Some(k) => {
                assert(self.path_set() =~= before.path_set().insert(p));
            },
            None => {
                self.paths.push(path);
                let ghost last = before.paths@.len() as int;
                assert(self.distinct()) by {
                    assert forall|a: int, b: int| 0 <= a < b < self.paths@.len() implies
                        self.paths@[a]@ != self.paths@[b]@ by {
                        if b == last {
                            assert(!before.has_path(a, p));
                        } else {
                            assert(self.paths@[a] == before.paths@[a]);
                            assert(self.paths@[b] == before.paths@[b]);
                        }
                    }
                }
                assert(self.path_set() =~= before.path_set().insert(p)) by {
                    assert forall|q: Seq<char>| #[trigger]
                        self.path_set().contains(q) implies before.path_set().insert(p).contains(
                        q,
                    ) by {
                        let k = choose|k: int| self.has_path(k, q);
                        if k < last {
                            assert(before.has_path(k, q));
                        }
                    }
                    assert forall|q: Seq<char>| #[trigger]
                        before.path_set().insert(p).contains(q) implies self.path_set().contains(
                        q,
                    ) by {
                        if q == p {
                            assert(self.has_path(last, q));
                        } else {
                            let k = choose|k: int| before.has_path(k, q);
                            assert(self.has_path(k, q));
                        }
                    }
                }
            },
        }
    }

    /// Takes `path` out of the bucket, if it is there.
    fn drop_path(&mut self, path: &String)
        requires
            old(self).distinct(),
        ensures
            final(self).distinct(),
            final(self).instant == old(self).instant,
            final(self).path_set() == old(self).path_set().remove(path@),
    {
        let ghost before = *self;
        let ghost p = path@;
        match self.position(path) {
            Some(k) => {
                self.paths.remove(k);
                assert(self.distinct()) by {
                    assert forall|a: int, b: int| 0 <= a < b < self.paths@.len() implies
                        self.paths@[a]@ != self.paths@[b]@ by {
                        let a0 = if a < k { a } else { a + 1 };
                        let b0 = if b < k { b } else { b + 1 };
                        assert(self.paths@[a] == before.paths@[a0]);
                        assert(self.paths@[b] == before.paths@[b0]);
                    }
                }
                assert(self.path_set() =~= before.path_set().remove(p)) by {
                    assert forall|q: Seq<char>| #[trigger]
                        self.path_set().contains(q) implies before.path_set().remove(p).contains(
                        q,
                    ) by {
                        let j = choose|j: int| self.has_path(j, q);
                        let j0 = if j < k { j } else { j + 1 };
                        assert(before.has_path(j0, q));
                        if q == p {
                            if j0 < k {
                                assert(before.paths@[j0]@ != before.paths@[k as int]@);
                            } else {
                                assert(before.paths@[k as int]@ != before.paths@[j0]@);
                            }
                        }
                    }
                    assert forall|q: Seq<char>| #[trigger]
                        before.path_set().remove(p).contains(q) implies self.path_set().contains(
                        q,
                    ) by {
                        let j = choose|j: int| before.has_path(j, q);
                        let j1 = if j < k { j } else { j - 1 };
                        assert(self.has_path(j1, q));
                    }
                }
            },
            None => {
                assert(self.path_set() =~= before.path_set().remove(p));
            },
        }
    }
}

/// `forward` after `path` has been scheduled at instant `t`.
pub open spec fn attached(
    forward: Map<int, Set<Seq<char>>>,
    path: Seq<char>,
    t: int,
) -> Map<int, Set<Seq<char>>> {
    if forward.contains_key(t) {
        forward.insert(t, forward[t].insert(path))
    } else {
        forward.insert(t, Set::<Seq<char>>::empty().insert(path))
    }
}

/// `forward` after `path` has left the bucket of instant `t`; a bucket left
/// empty is gone.
pub open spec fn detached(
    forward: Map<int, Set<Seq<char>>>,
    path: Seq<char>,
    t: int,
) -> Map<int, Set<Seq<char>>> {
    if !forward.contains_key(t) {
        forward
    } else if forward[t].remove(path) == Set::<Seq<char>>::empty() {
        forward.remove(t)
    } else {
        forward.insert(t, forward[t].remove(path))
    }
}

/// The buckets of `forward` whose instant lies after `now`.
pub open spec fn pending_after(forward: Map<int, Set<Seq<char>>>, now: int) -> Map<
    int,
    Set<Seq<char>>,
> {
    Map::new(|t: int| forward.contains_key(t) && t > now, |t: int| forward[t])
}

/// `due` lists, in ascending order of instant and each once, exactly the
/// buckets of `forward` whose instant is at or before `now`.
pub open spec fn is_due_list(due: Seq<Bucket>, forward: Map<int, Set<Seq<char>>>, now: int) -> bool {
    &&& forall|a: int, b: int| 0 <= a < b < due.len() ==> due[a].instant@ < due[b].instant@
    &&& forall|i: int|
        0 <= i < due.len() ==> {
            &&& (#[trigger] due[i]).wf()
            &&& due[i].instant@ <= now
            &&& forward.contains_key(due[i].instant@)
            &&& forward[due[i].instant@] == due[i].path_set()
        }
    &&& forall|t: int|
        forward.contains_key(t) && t <= now ==> exists|i: int|
            0 <= i < due.len() && (#[trigger] due[i]).instant@ == t
}

/// Ordered mapping from instant to the set of paths scheduled then.
pub struct ForwardMap {
    buckets: Vec<Bucket>,
}

impl View for ForwardMap {
    type V = Map<int, Set<Seq<char>>>;

    closed spec fn view(&self) -> Map<int, Set<Seq<char>>> {
        Map::new(
            |t: int| exists|j: int| self.at(j, t),
            |t: int| self.buckets@[choose|j: int| self.at(j, t)].path_set(),
        )
    }
}

impl ForwardMap {
    /// Slot `j` exists and is the bucket of instant `t`.
    pub closed spec fn at(&self, j: int, t: int) -> bool {
        0 <= j < self.buckets@.len() && self.buckets@[j].instant@ == t
    }

    /// Buckets stand in strictly ascending order of instant, and each is a
    /// well-formed bucket.
    pub closed spec fn wf(&self) -> bool {
        &&& forall|a: int, b: int|
            0 <= a < b < self.buckets@.len() ==> self.buckets@[a].instant@
                < self.buckets@[b].instant@
        &&& forall|j: int| 0 <= j < self.buckets@.len() ==> (#[trigger] self.buckets@[j]).wf()
    }

    proof fn lemma_slot(&self, j: int)
        requires
            self.wf(),
            0 <= j < self.buckets@.len(),
        ensures
            self@.dom().contains(self.buckets@[j].instant@),
            self@[self.buckets@[j].instant@] == self.buckets@[j].path_set(),
    {
        let t = self.buckets@[j].instant@;
        assert(self.at(j, t));
        let c = choose|k: int| self.at(k, t);
        assert(self.at(c, t));
        if c < j {
            assert(self.buckets@[c].instant@ < self.buckets@[j].instant@);
        } else if j < c {
            assert(self.buckets@[j].instant@ < self.buckets@[c].instant@);
        }
    }

    /// A well-formed forward view holds no empty bucket.
    pub proof fn lemma_no_empty_bucket(&self, t: int)
        requires
            self.wf(),
            self@.contains_key(t),
        ensures
            self@[t] != Set::<Seq<char>>::empty(),
            self@[t].finite(),
    {
        let j = choose|j: int| self.at(j, t);
        assert(self.at(j, t));
        self.lemma_slot(j);
        let b = self.buckets@[j];
        assert(b.wf());
        assert(b.has_path(0, b.paths@[0]@));
        assert(b.path_set().contains(b.paths@[0]@));
        b.lemma_finite(b.paths@.len() as int);
        assert(b.prefix_set(b.paths@.len() as int) =~= b.path_set()) by {
            assert forall|p: Seq<char>| #[trigger] b.path_set().contains(p) implies b.prefix_set(
                b.paths@.len() as int,
            ).contains(p) by {
                let k = choose|k: int| b.has_path(k, p);
                assert(b.has_path(k, p));
            }
        }
    }

    /// A well-formed forward view holds a path in every bucket.
    pub proof fn lemma_buckets_inhabited(&self)
        requires
            self.wf(),
        ensures
            forall|t: int| #[trigger]
                self@.dom().contains(t) ==> exists|p: Seq<char>| #[trigger] self@[t].contains(p),
    {
        assert forall|t: int| #[trigger] self@.dom().contains(t) implies exists|p: Seq<char>| #[trigger]
            self@[t].contains(p) by {
            self.lemma_no_empty_bucket(t);
            lemma_inhabited(self@[t]);
        }
    }

    /// A forward view without a bucket.
    pub fn new() -> (r: ForwardMap)
        ensures
            r.wf(),
            r@ == Map::<int, Set<Seq<char>>>::empty(),
    {
        let r = ForwardMap { buckets: Vec::new() };
        assert(r@ =~= Map::<int, Set<Seq<char>>>::empty());
        r
    }

    /// Index of the first bucket whose instant is not before `t`, found by
    /// halving.
    fn lower_bound(&self, t: Instant) -> (j: usize)
        requires
            self.wf(),
        ensures
            j <= self.buckets@.len(),
            forall|a: int| 0 <= a < j ==> self.buckets@[a].instant@ < t@,
            j < self.buckets@.len() ==> self.buckets@[j as int].instant@ >= t@,
    {
        let mut low: usize = 0;
        let mut high: usize = self.buckets.len();
        while low < high
            invariant
                self.wf(),
                low <= high <= self.buckets@.len(),
                forall|a: int| 0 <= a < low ==> self.buckets@[a].instant@ < t@,
                forall|a: int| high <= a < self.buckets@.len() ==> self.buckets@[a].instant@ >= t@,
            decreases high - low,
        {
            let middle: usize = low + (high - low) / 2;
            if self.buckets[middle].instant.nanos < t.nanos {
                assert forall|a: int| 0 <= a < middle + 1 implies self.buckets@[a].instant@
                    < t@ by {
                    if a < middle {
                        assert(self.buckets@[a].instant@ < self.buckets@[middle as int].instant@);
                    }
                }
                low = middle + 1;
            } else {
                assert forall|a: int| middle <= a < self.buckets@.len() implies self.buckets@[a].instant@
                    >= t@ by {
                    if middle < a {
                        assert(self.buckets@[middle as int].instant@ < self.buckets@[a].instant@);
                    }
                }
                high = middle;
            }
        }
        low
    }

    /// The nearest bucket, if any path is scheduled.
    pub fn first(&self) -> (r: Option<&Bucket>)
        requires
            self.wf(),
        ensures
            match r {
                None => self@ == Map::<int, Set<Seq<char>>>::empty(),
                Some(b) => {
                    &&& b.wf()
                    &&& self@.contains_key(b.instant@)
                    &&& self@[b.instant@] == b.path_set()
                    &&& forall|t: int| self@.contains_key(t) ==> b.instant@ <= t
                },
            },
    {
        if self.buckets.len() == 0 {
            assert(self@ =~= Map::<int, Set<Seq<char>>>::empty()) by {
                assert forall|t: int| !(#[trigger] self@.dom().contains(t)) by {
                    if self@.dom().contains(t) {
                        let j = choose|j: int| self.at(j, t);
                        assert(self.at(j, t));
                    }
                }
            }
            None
        } else {
            proof {
                self.lemma_slot(0);
                assert forall|t: int| self@.contains_key(t) implies self.buckets@[0].instant@
                    <= t by {
                    let j = choose|j: int| self.at(j, t);
                    assert(self.at(j, t));
                    if 0 < j {
                        assert(self.buckets@[0].instant@ < self.buckets@[j].instant@);
                    }
                }
            }
            Some(&self.buckets[0])
        }
    }

    /// Whether no path is scheduled.
    pub fn is_empty(&self) -> (r: bool)
        ensures
            r == (self@ == Map::<int, Set<Seq<char>>>::empty()),
    {
        proof {
            if self.buckets@.len() == 0 {
                assert(self@ =~= Map::<int, Set<Seq<char>>>::empty()) by {
                    assert forall|t: int| !(#[trigger] self@.dom().contains(t)) by {
                        if self@.dom().contains(t) {
                            let j = choose|j: int| self.at(j, t);
                            assert(self.at(j, t));
                        }
                    }
                }
            } else {
                assert(self.at(0, self.buckets@[0].instant@));
                assert(self@.dom().contains(self.buckets@[0].instant@));
            }
        }
        self.buckets.len() == 0
    }

    /// Puts `path` into the bucket of `instant`, opening the bucket if there
    /// is none.
    pub fn attach(&mut self, path: &str, instant: Instant)
        requires
            old(self).wf(),
        ensures
            final(self).wf(),
            final(self)@ == attached(old(self)@, path@, instant@),
    {
        let owned = path.to_owned();
        let ghost before = *self;
        let ghost t = instant@;
        let ghost goal = attached(before@, path@, t);
        let j = self.lower_bound(instant);
        if j < self.buckets.len() && self.buckets[j].instant.nanos == instant.nanos {
            let mut b = self.buckets.remove(j);
            proof {
                before.lemma_slot(j as int);
                assert(before.buckets@[j as int].wf());
            }
            b.add(owned);
            self.buckets.insert(j, b);
            proof {
                assert(self.buckets@ =~= before.buckets@.update(j as int, b));
                assert(self.wf()) by {
                    assert forall|x: int, y: int| 0 <= x < y < self.buckets@.len() implies
                        self.buckets@[x].instant@ < self.buckets@[y].instant@ by {
                        assert(before.buckets@[x].instant@ < before.buckets@[y].instant@);
                    }
                    assert forall|x: int| 0 <= x < self.buckets@.len() implies (
                    #[trigger] self.buckets@[x]).wf() by {
                        if x != j {
                            assert(before.buckets@[x].wf());
                        }
                    }
                }
                assert forall|u: int| #[trigger] self@.dom().contains(u) implies goal.dom().contains(
                    u,
                ) by {
                    let x = choose|x: int| self.at(x, u);
                    assert(before.at(x, u));
                }
                assert forall|u: int| #[trigger] goal.dom().contains(u) implies self@.dom().contains(
                    u,
                ) && self@[u] == goal[u] by {
                    if u == t {
                        assert(self.at(j as int, u));
                        self.lemma_slot(j as int);
                    } else {
                        let x = choose|x: int| before.at(x, u);
                        assert(self.at(x, u));
                        self.lemma_slot(x);
                        before.lemma_slot(x);
                    }
                }
                lemma_map_eq(self@, goal);
            }
        } else {
            let mut paths: Vec<String> = Vec::new();
            paths.push(owned);
            let b = Bucket { instant, paths };
            proof {
                assert(b.has_path(0, path@));
                assert(b.path_set() =~= Set::<Seq<char>>::empty().insert(path@)) by {
                    assert forall|q: Seq<char>| #[trigger] b.path_set().contains(q) implies q
                        == path@ by {
                        let k = choose|k: int| b.has_path(k, q);
                    }
                }
                assert(!before@.dom().contains(t)) by {
                    if before@.dom().contains(t) {
                        let x = choose|x: int| before.at(x, t);
                        assert(before.at(x, t));
                        if x > j {
                            assert(before.buckets@[j as int].instant@ < before.buckets@[x].instant@);
                        }
                    }
                }
            }
            self.buckets.insert(j, b);
            proof {
                assert(self.wf()) by {
                    assert forall|x: int, y: int| 0 <= x < y < self.buckets@.len() implies
                        self.buckets@[x].instant@ < self.buckets@[y].instant@ by {
                        let x0 = if x < j { x } else { x - 1 };
                        let y0 = if y < j { y } else { y - 1 };
                        if x != j && y != j {
                            assert(before.buckets@[x0].instant@ < before.buckets@[y0].instant@);
                        } else if x == j {
                            if j < y0 {
                                assert(before.buckets@[j as int].instant@
                                    < before.buckets@[y0].instant@);
                            }
                        }
                    }
                    assert forall|x: int| 0 <= x < self.buckets@.len() implies (
                    #[trigger] self.buckets@[x]).wf() by {
                        let x0 = if x < j { x } else { x - 1 };
                        if x != j {
                            assert(before.buckets@[x0].wf());
                        }
                    }
                }
                assert forall|u: int| #[trigger] self@.dom().contains(u) implies goal.dom().contains(
                    u,
                ) by {
                    let x = choose|x: int| self.at(x, u);
                    let x0 = if x < j { x } else { x - 1 };
                    if x != j {
                        assert(before.at(x0, u));
                    }
                }
                assert forall|u: int| #[trigger] goal.dom().contains(u) implies self@.dom().contains(
                    u,
                ) && self@[u] == goal[u] by {
                    if u == t {
                        assert(self.at(j as int, u));
                        self.lemma_slot(j as int);
                    } else {
                        let x = choose|x: int| before.at(x, u);
                        let x1 = if x < j { x } else { x + 1 };
                        assert(before.at(x, u));
                        assert(self.at(x1, u));
                        self.lemma_slot(x1);
                        before.lemma_slot(x);
                    }
                }
                lemma_map_eq(self@, goal);
            }
        }
    }

    /// Takes `path` out of the bucket of `instant`, closing the bucket if it
    /// is left empty.
    pub fn detach(&mut self, path: &str, instant: Instant)
        requires
            old(self).wf(),
        ensures
            final(self).wf(),
            final(self)@ == detached(old(self)@, path@, instant@),
    {
        let owned = path.to_owned();
        let ghost before = *self;
        let ghost t = instant@;
        let ghost goal = detached(before@, path@, t);
        let j = self.lower_bound(instant);
        if j < self.buckets.len() && self.buckets[j].instant.nanos == instant.nanos {
            let mut b = self.buckets.remove(j);
            let ghost mid = *self;
            proof {
                before.lemma_slot(j as int);
                assert(before.buckets@[j as int].wf());
            }
            b.drop_path(&owned);
            proof {
                if b.paths@.len() == 0 {
                    assert(b.path_set() =~= Set::<Seq<char>>::empty()) by {
                        assert forall|q: Seq<char>| !(#[trigger] b.path_set().contains(q)) by {
                            if b.path_set().contains(q) {
                                let k = choose|k: int| b.has_path(k, q);
                            }
                        }
                    }
                } else {
                    assert(b.has_path(0, b.paths@[0]@));
                    assert(b.path_set().contains(b.paths@[0]@));
                }
            }
            if b.paths.len() > 0 {
                self.buckets.insert(j, b);
                proof {
                    assert(self.buckets@ =~= before.buckets@.update(j as int, b));
                    assert(self.wf()) by {
                        assert forall|x: int, y: int| 0 <= x < y < self.buckets@.len() implies
                            self.buckets@[x].instant@ < self.buckets@[y].instant@ by {
                            assert(before.buckets@[x].instant@ < before.buckets@[y].instant@);
                        }
                        assert forall|x: int| 0 <= x < self.buckets@.len() implies (
                        #[trigger] self.buckets@[x]).wf() by {
                            if x != j {
                                assert(before.buckets@[x].wf());
                            }
                        }
                    }
                    assert forall|u: int| #[trigger]
                        self@.dom().contains(u) implies goal.dom().contains(u) by {
                        let x = choose|x: int| self.at(x, u);
                        assert(before.at(x, u));
                    }
                    assert forall|u: int| #[trigger]
                        goal.dom().contains(u) implies self@.dom().contains(u) && self@[u]
                        == goal[u] by {
                        if u == t {
                            assert(self.at(j as int, u));
                            self.lemma_slot(j as int);
                        } else {
                            let x = choose|x: int| before.at(x, u);
                            assert(self.at(x, u));
                            self.lemma_slot(x);
                            before.lemma_slot(x);
                        }
                    }
                    lemma_map_eq(self@, goal);
                }
            } else {
                proof {
                    assert(self.wf()) by {
                        assert forall|x: int, y: int| 0 <= x < y < self.buckets@.len() implies
                            self.buckets@[x].instant@ < self.buckets@[y].instant@ by {
                            let x0 = if x < j { x } else { x + 1 };
                            let y0 = if y < j { y } else { y + 1 };
                            assert(before.buckets@[x0].instant@ < before.buckets@[y0].instant@);
                        }
                        assert forall|x: int| 0 <= x < self.buckets@.len() implies (
                        #[trigger] self.buckets@[x]).wf() by {
                            let x0 = if x < j { x } else { x + 1 };
                            assert(before.buckets@[x0].wf());
                        }
                    }
                    assert forall|u: int| #[trigger]
                        self@.dom().contains(u) implies goal.dom().contains(u) by {
                        let x = choose|x: int| self.at(x, u);
                        let x0 = if x < j { x } else { x + 1 };
                        assert(before.at(x0, u));
                        if x0 < j {
                            assert(before.buckets@[x0].instant@ < before.buckets@[j as int].instant@);
                        } else {
                            assert(before.buckets@[j as int].instant@ < before.buckets@[x0].instant@);
                        }
                    }
                    assert forall|u: int| #[trigger]
                        goal.dom().contains(u) implies self@.dom().contains(u) && self@[u]
                        == goal[u] by {
                        let x = choose|x: int| before.at(x, u);
                        assert(before.at(x, u));
                        let x1 = if x < j { x } else { x - 1 };
                        assert(self.at(x1, u));
                        self.lemma_slot(x1);
                        before.lemma_slot(x);
                    }
                    lemma_map_eq(self@, goal);
                }
            }
        } else {
            proof {
                assert(!before@.dom().contains(t)) by {
                    if before@.dom().contains(t) {
                        let x = choose|x: int| before.at(x, t);
                        assert(before.at(x, t));
                        if x > j {
                            assert(before.buckets@[j as int].instant@ < before.buckets@[x].instant@);
                        }
                    }
                }
            }
        }
    }

    /// Removes and returns every bucket whose instant is at or before `now`,
    /// in ascending order of instant.
    pub fn take_due(&mut self, now: Instant) -> (due: Vec<Bucket>)
        requires
            old(self).wf(),
        ensures
            final(self).wf(),
            final(self)@ == pending_after(old(self)@, now@),
            is_due_list(due@, old(self)@, now@),
    {
        let ghost before = *self;
        let ghost goal = pending_after(before@, now@);
        let mut n: usize = 0;
        while n < self.buckets.len() && self.buckets[n].instant.nanos <= now.nanos
            invariant
                n <= self.buckets@.len(),
                forall|a: int| 0 <= a < n ==> self.buckets@[a].instant@ <= now@,
            decreases self.buckets@.len() - n,
        {
            n += 1;
        }
        let mut rest = self.buckets.split_off(n);
        std::mem::swap(&mut self.buckets, &mut rest);
        let due = rest;
        proof {
            let len = before.buckets@.len() as int;
            assert(self.buckets@ =~= before.buckets@.subrange(n as int, len));
            assert(due@ =~= before.buckets@.subrange(0, n as int));
            assert forall|x: int| n <= x < len implies before.buckets@[x].instant@ > now@ by {
                if x > n {
                    assert(before.buckets@[n as int].instant@ < before.buckets@[x].instant@);
                }
            }
            assert(self.wf()) by {
                assert forall|x: int, y: int| 0 <= x < y < self.buckets@.len() implies
                    self.buckets@[x].instant@ < self.buckets@[y].instant@ by {
                    assert(before.buckets@[x + n].instant@ < before.buckets@[y + n].instant@);
                }
                assert forall|x: int| 0 <= x < self.buckets@.len() implies (
                #[trigger] self.buckets@[x]).wf() by {
                    assert(before.buckets@[x + n].wf());
                }
            }
            assert forall|u: int| #[trigger] self@.dom().contains(u) implies goal.dom().contains(
                u,
            ) by {
                let x = choose|x: int| self.at(x, u);
                assert(before.at(x + n, u));
            }
            assert forall|u: int| #[trigger] goal.dom().contains(u) implies self@.dom().contains(
                u,
            ) && self@[u] == goal[u] by {
                let x = choose|x: int| before.at(x, u);
                assert(before.at(x, u));
                assert(x >= n);
                assert(self.at(x - n, u));
                self.lemma_slot(x - n);
                before.lemma_slot(x);
            }
            lemma_map_eq(self@, goal);
            assert(is_due_list(due@, before@, now@)) by {
                assert forall|a: int, b: int| 0 <= a < b < due@.len() implies due@[a].instant@
                    < due@[b].instant@ by {
                    assert(before.buckets@[a].instant@ < before.buckets@[b].instant@);
                }
                assert forall|i: int| 0 <= i < due@.len() implies {
                    &&& (#[trigger] due@[i]).wf()
                    &&& due@[i].instant@ <= now@
                    &&& before@.contains_key(due@[i].instant@)
                    &&& before@[due@[i].instant@] == due@[i].path_set()
                } by {
                    assert(before.buckets@[i].wf());
                    before.lemma_slot(i);
                }
                assert forall|u: int| before@.contains_key(u) && u <= now@ implies exists|i: int|
                    0 <= i < due@.len() && (#[trigger] due@[i]).instant@ == u by {
                    let x = choose|x: int| before.at(x, u);
                    assert(before.at(x, u));
                    assert(x < n);
                    assert(due@[x].instant@ == u);
                }
            }
        }
        due
    }
}

} // verus!
