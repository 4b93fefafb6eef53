//! The change monitor's debouncing: bursts of raw filesystem events for one
//! path collapse into one notification, released once the path has been
//! quiet for the whole window.

use vstd::prelude::*;
use crate::instant::{Instant, NANOS_PER_SECOND};
use crate::reverse::{later_than, lists_until, ReverseMap};

verus! {

/// Last-seen records of the paths with a raw event not yet released.
pub struct Debouncer {
    window: i128,
    seen: ReverseMap,
}

impl View for Debouncer {
    type V = Map<Seq<char>, int>;

    /// Each path awaiting release, with the instant of its latest raw event.
    closed spec fn view(&self) -> Map<Seq<char>, int> {
        self.seen@
    }
}

impl Debouncer {
    /// The debounce window, in nanoseconds.
    pub closed spec fn window(&self) -> int {
        self.window as int
    }

    /// The records are well formed, and the window is not negative.
    pub closed spec fn wf(&self) -> bool {
        self.seen.wf() && self.window >= 0
    }

    /// A debouncer with a window of `window_secs` seconds and no record.
    pub fn new(window_secs: u64) -> (r: Debouncer)
        ensures
            r.wf(),
            r.window() == window_secs * NANOS_PER_SECOND,
            r@ == Map::<Seq<char>, int>::empty(),
    {
        let wide: i128 = window_secs as i128;
        Debouncer { window: wide * NANOS_PER_SECOND, seen: ReverseMap::new() }
    }

    /// Number of paths awaiting release.
    pub fn pending(&self) -> (n: usize)
        requires
            self.wf(),
        ensures
            self@.dom().finite(),
            n == self@.len(),
    {
        self.seen.len()
    }

    /// Records a raw event for `path` at `now`: the first event of a path
    /// creates its record, every later one refreshes it.
    pub fn observe(&mut self, path: &str, now: Instant)
        requires
            old(self).wf(),
        ensures
            final(self).wf(),
            final(self).window() == old(self).window(),
            final(self)@ == old(self)@.insert(path@, now@),
    {
        self.seen.insert(path, now);
    }

    /// Releases, each once, the paths that have been quiet for the whole
    /// window at `now`, and evicts their records.
    pub fn release(&mut self, now: Instant) -> (released: Vec<String>)
        requires
            old(self).wf(),
        ensures
            final(self).wf(),
            final(self).window() == old(self).window(),
            final(self)@ == later_than(old(self)@, now@ - old(self).window()),
            lists_until(released@, old(self)@, now@ - old(self).window()),
    {
        match now.nanos.checked_sub(self.window) {
            Some(limit) => self.seen.take_until(Instant { nanos: limit }),
            None => {
                proof {
                    self.seen.lemma_instants_in_range();
                    assert(later_than(self@, now@ - self.window()) =~= self@);
                }
                Vec::new()
            },
        }
    }
}

/// What reaches the monitor: a raw event for a path, or a poll for what can
/// be released.
pub enum RawInput {
    Seen { path: Seq<char>, at: int },
    Poll { at: int },
}

/// When an input reaches the monitor.
pub open spec fn time_of(input: RawInput) -> int {
    match input {
        RawInput::Seen { path, at } => at,
        RawInput::Poll { at } => at,
    }
}

/// `input` is a raw event for `path`.
pub open spec fn is_event_of(input: RawInput, path: Seq<char>) -> bool {
    match input {
        RawInput::Seen { path: seen, at } => seen == path,
        RawInput::Poll { at } => false,
    }
}

/// The records after the first `n` inputs, starting with none.
pub open spec fn records_after(inputs: Seq<RawInput>, window: int, n: int) -> Map<Seq<char>, int>
    decreases n,
{
    if n <= 0 {
        Map::empty()
    } else {
        let before = records_after(inputs, window, n - 1);
        match inputs[n - 1] {
            RawInput::Seen { path, at } => before.insert(path, at),
            RawInput::Poll { at } => later_than(before, at - window),
        }
    }
}

/// How many notifications for `path` the first `n` inputs have produced.
pub open spec fn notifications(inputs: Seq<RawInput>, window: int, n: int, path: Seq<char>) -> int
    decreases n,
{
    if n <= 0 {
        0
    } else {
        let before = records_after(inputs, window, n - 1);
        let earlier = notifications(inputs, window, n - 1, path);
        match inputs[n - 1] {
            RawInput::Seen { path: seen, at } => earlier,
            RawInput::Poll { at } => if before.dom().contains(path) && before[path] <= at - window {
                earlier + 1
            } else {
                earlier
            },
        }
    }
}

/// Index of the last raw event of `path` among the first `upto` inputs;
/// `-1` if there is none.
pub open spec fn latest_event(inputs: Seq<RawInput>, path: Seq<char>, upto: int) -> int
    decreases upto,
{
    if upto <= 0 || upto > inputs.len() {
        -1
    } else if is_event_of(inputs[upto - 1], path) {
        upto - 1
    } else {
        latest_event(inputs, path, upto - 1)
    }
}

/// The raw events of `path` form a chain: each comes within a window of
/// the one before it.
pub open spec fn chained(inputs: Seq<RawInput>, window: int, path: Seq<char>) -> bool {
    forall|j: int|
        0 <= j < inputs.len() && is_event_of(#[trigger] inputs[j], path) && latest_event(
            inputs,
            path,
            j,
        ) >= 0 ==> time_of(inputs[j]) - time_of(inputs[latest_event(inputs, path, j)]) < window
}

/// The inputs come in the order of their times.
pub open spec fn in_time_order(inputs: Seq<RawInput>) -> bool {
    forall|i: int, j: int|
        0 <= i < j < inputs.len() ==> time_of(#[trigger] inputs[i]) <= time_of(#[trigger] inputs[j])
}

/// Among the first `upto` inputs a poll behind input `k` found it a whole
/// window old.
pub open spec fn polled_since(inputs: Seq<RawInput>, window: int, k: int, upto: int) -> bool {
    exists|m: int|
        k < m < upto && #[trigger] inputs[m] is Poll && time_of(inputs[m]) - window >= time_of(
            inputs[k],
        )
}

proof fn lemma_latest_event(inputs: Seq<RawInput>, path: Seq<char>, upto: int)
    requires
        0 <= upto <= inputs.len(),
    ensures
        -1 <= latest_event(inputs, path, upto) < upto,
        latest_event(inputs, path, upto) >= 0 ==> is_event_of(
            inputs[latest_event(inputs, path, upto)],
            path,
        ),
        forall|k: int|
            latest_event(inputs, path, upto) < k < upto ==> !is_event_of(#[trigger] inputs[k], path),
    decreases upto,
{
    if upto > 0 && !is_event_of(inputs[upto - 1], path) {
        lemma_latest_event(inputs, path, upto - 1);
    }
}

proof fn lemma_chain_prefix(inputs: Seq<RawInput>, window: int, path: Seq<char>, n: int)
    requires
        in_time_order(inputs),
        chained(inputs, window, path),
        0 <= n <= inputs.len(),
    ensures
        ({
            let k = latest_event(inputs, path, n);
            let records = records_after(inputs, window, n);
            let count = notifications(inputs, window, n, path);
            &&& k < 0 ==> !records.dom().contains(path) && count == 0
            &&& k >= 0 ==> {
                ||| records.dom().contains(path) && records[path] == time_of(inputs[k]) && count
                    == 0
                ||| !records.dom().contains(path) && count == 1 && polled_since(inputs, window, k, n)
            }
        }),
    decreases n,
{
    if n > 0 {
        lemma_chain_prefix(inputs, window, path, n - 1);
        lemma_latest_event(inputs, path, n - 1);
        let k0 = latest_event(inputs, path, n - 1);
        let before = records_after(inputs, window, n - 1);
        let earlier = notifications(inputs, window, n - 1, path);
        match inputs[n - 1] {
            RawInput::Seen { path: seen, at } => {
                if seen == path {
                    assert(is_event_of(inputs[n - 1], path));
                    if k0 >= 0 && !before.dom().contains(path) {
                        // A poll has found the path quiet, and yet an event
                        // follows within a window: there is no such chain.
                        let m = choose|m: int|
                            k0 < m < n - 1 && #[trigger] inputs[m] is Poll && time_of(inputs[m])
                                - window >= time_of(inputs[k0]);
                        assert(time_of(inputs[m]) <= time_of(inputs[n - 1]));
                        assert(time_of(inputs[n - 1]) - time_of(inputs[k0]) < window);
                    }
                } else {
                    assert(!is_event_of(inputs[n - 1], path));
                    if k0 >= 0 && !before.dom().contains(path) {
                        let m = choose|m: int|
                            k0 < m < n - 1 && #[trigger] inputs[m] is Poll && time_of(inputs[m])
                                - window >= time_of(inputs[k0]);
                        assert(polled_since(inputs, window, k0, n));
                    }
                }
            },
            RawInput::Poll { at } => {
                assert(!is_event_of(inputs[n - 1], path));
                if k0 >= 0 {
                    if before.dom().contains(path) {
                        if before[path] <= at - window {
                            assert(inputs[n - 1] is Poll);
                            assert(polled_since(inputs, window, k0, n));
                        }
                    } else {
                        let m = choose|m: int|
                            k0 < m < n - 1 && #[trigger] inputs[m] is Poll && time_of(inputs[m])
                                - window >= time_of(inputs[k0]);
                        assert(polled_since(inputs, window, k0, n));
                    }
                }
            },
        }
    }
}

/// Debounce collapsing: raw events for one path, each within a window of
/// the one before it, however many and whatever polls fall between them,
/// produce exactly one notification. It is given at the first poll that
/// finds the path quiet for a whole window; the inputs end with such a
/// poll.
pub proof fn lemma_burst_collapses(inputs: Seq<RawInput>, window: int, path: Seq<char>)
    requires
        in_time_order(inputs),
        chained(inputs, window, path),
        inputs.len() > 0,
        inputs.last() is Poll,
        latest_event(inputs, path, inputs.len() as int) >= 0,
        time_of(inputs[latest_event(inputs, path, inputs.len() as int)]) <= time_of(inputs.last())
            - window,
    ensures
        notifications(inputs, window, inputs.len() as int, path) == 1,
{
    let n = inputs.len() as int;
    lemma_chain_prefix(inputs, window, path, n - 1);
    lemma_chain_prefix(inputs, window, path, n);
    lemma_latest_event(inputs, path, n - 1);
    assert(!is_event_of(inputs[n - 1], path));
    assert(latest_event(inputs, path, n) == latest_event(inputs, path, n - 1));
}

} // verus!
