//! The scheduler: a state machine that owns at most one timer, aimed at the
//! nearest pending instant.
//!
//! The machine decides; its driver acts. Each call of [`Scheduler::handle`]
//! takes one event and answers with a [`Directive`]: the timer to cancel,
//! the posts to publish, the timer to start.

use vstd::prelude::*;
use crate::forward::{is_due_list, Bucket};
use crate::index::{forward_of, has_instant, still_pending, ScheduleIndex};
use crate::instant::Instant;

verus! {

/// A timer, named by the number it was issued under.
#[derive(Clone, Copy, Debug, PartialEq, Eq, Structural)]
pub struct Timer {
    pub id: u64,
    pub target: Instant,
}

/// The state of the scheduler.
#[derive(Clone, Copy, Debug, PartialEq, Eq, Structural)]
pub enum SchedulerState {
    /// No timer is outstanding.
    Idle,
    /// One timer is running, aimed at the nearest pending instant.
    Armed(Timer),
}

/// What the scheduler is told.
#[derive(Clone, Copy, Debug, PartialEq, Eq, Structural)]
pub enum SchedulerEvent {
    /// The schedule index has changed.
    Changed,
    /// The given timer has run out.
    Scheduled(Timer),
}

/// What the driver is to do after an event, in this order: cancel, publish,
/// arm.
pub struct Directive {
    /// The timer to cancel. Cancelling a timer that has run out does nothing.
    pub cancel: Option<Timer>,
    /// The buckets to publish, nearest first.
    pub publish: Vec<Bucket>,
    /// The timer to start.
    pub arm: Option<Timer>,
    /// Seconds that the timer to start is to run, rounded up so that it does
    /// not run out before its target; zero without one.
    pub wait_secs: u64,
}

/// The number the next timer is issued under.
pub open spec fn next_id(issued: u64) -> u64 {
    if issued == u64::MAX {
        0
    } else {
        (issued + 1) as u64
    }
}

/// `t` is the nearest instant of `schedule`.
pub open spec fn is_earliest(schedule: Map<Seq<char>, int>, t: int) -> bool {
    &&& has_instant(schedule, t)
    &&& forall|p: Seq<char>| #[trigger] schedule.dom().contains(p) ==> t <= schedule[p]
}

/// Whether the machine acts on `event` in `state`. It acts on every change
/// of the index, and on the running out of the one timer it is armed with;
/// a timer that it has cancelled or replaced is ignored.
pub open spec fn accepts(state: SchedulerState, event: SchedulerEvent) -> bool {
    match event {
        SchedulerEvent::Changed => true,
        SchedulerEvent::Scheduled(timer) => state == SchedulerState::Armed(timer),
    }
}

/// The timer that an accepted `event` has the driver cancel.
pub open spec fn to_cancel(state: SchedulerState, event: SchedulerEvent) -> Option<Timer> {
    match (event, state) {
        (SchedulerEvent::Changed, SchedulerState::Armed(timer)) => Some(timer),
        _ => None,
    }
}

/// The timers that are live in `state`: started, not cancelled, not run out.
pub open spec fn live(state: SchedulerState) -> Set<Timer> {
    match state {
        SchedulerState::Idle => Set::empty(),
        SchedulerState::Armed(timer) => Set::empty().insert(timer),
    }
}

/// The live timers once `event` has happened and the driver has cancelled
/// `cancel` and started `arm`.
pub open spec fn live_after(
    before: Set<Timer>,
    event: SchedulerEvent,
    cancel: Option<Timer>,
    arm: Option<Timer>,
) -> Set<Timer> {
    let fired = match event {
        SchedulerEvent::Changed => before,
        SchedulerEvent::Scheduled(timer) => before.remove(timer),
    };
    let cancelled = match cancel {
        Some(timer) => fired.remove(timer),
        None => fired,
    };
    match arm {
        Some(timer) => cancelled.insert(timer),
        None => cancelled,
    }
}

/// One step of the machine, as its driver sees it.
pub struct Step {
    pub before: SchedulerState,
    pub event: SchedulerEvent,
    pub cancel: Option<Timer>,
    pub arm: Option<Timer>,
    pub after: SchedulerState,
}

/// The step is one that [`Scheduler::handle`] takes.
pub open spec fn follows_protocol(step: Step) -> bool {
    if accepts(step.before, step.event) {
        &&& step.cancel == to_cancel(step.before, step.event)
        &&& step.after == match step.arm {
            Some(timer) => SchedulerState::Armed(timer),
            None => SchedulerState::Idle,
        }
    } else {
        &&& step.cancel is None
        &&& step.arm is None
        &&& step.after == step.before
    }
}

/// `steps` is a run of the machine from `Idle`.
pub open spec fn is_run(steps: Seq<Step>) -> bool {
    forall|i: int|
        0 <= i < steps.len() ==> {
            &&& follows_protocol(#[trigger] steps[i])
            &&& steps[i].before == if i == 0 {
                SchedulerState::Idle
            } else {
                steps[i - 1].after
            }
        }
}

/// The state after the first `n` steps.
pub open spec fn state_after(steps: Seq<Step>, n: int) -> SchedulerState {
    if n <= 0 {
        SchedulerState::Idle
    } else {
        steps[n - 1].after
    }
}

/// The timers live after the first `n` steps, none being live at the start.
pub open spec fn live_along(steps: Seq<Step>, n: int) -> Set<Timer>
    decreases n,
{
    if n <= 0 {
        Set::empty()
    } else {
        live_after(live_along(steps, n - 1), steps[n - 1].event, steps[n - 1].cancel, steps[n - 1].arm)
    }
}

/// A state has at most one live timer.
pub proof fn lemma_at_most_one_live(state: SchedulerState)
    ensures
        live(state).finite(),
        live(state).len() <= 1,
{
}

/// Single timer: after any number of events, however they interleave, the
/// timers left live are those of the state reached, so at most one.
pub proof fn lemma_single_timer(steps: Seq<Step>, n: int)
    requires
        is_run(steps),
        0 <= n <= steps.len(),
    ensures
        live_along(steps, n) == live(state_after(steps, n)),
        live_along(steps, n).finite(),
        live_along(steps, n).len() <= 1,
    decreases n,
{
    if n > 0 {
        lemma_single_timer(steps, n - 1);
        let step = steps[n - 1];
        assert(follows_protocol(step));
        assert(step.before == state_after(steps, n - 1));
        assert(live_after(live(step.before), step.event, step.cancel, step.arm) =~= live(step.after));
    }
    lemma_at_most_one_live(state_after(steps, n));
}

/// The scheduler: its state, and the count of the timers it has issued.
pub struct Scheduler {
    pub state: SchedulerState,
    /// The number the last timer was issued under.
    pub issued: u64,
}

/// A timer that was not the last one issued is none that the scheduler is
/// armed with: when it runs out, the event is not accepted.
pub proof fn lemma_replaced_timer_is_ignored(scheduler: Scheduler, timer: Timer)
    requires
        scheduler.wf(),
        timer.id != scheduler.issued,
    ensures
        !accepts(scheduler.state, SchedulerEvent::Scheduled(timer)),
{
}

impl Scheduler {
    /// The timer that the scheduler is armed with is the last one issued.
    pub open spec fn wf(&self) -> bool {
        self.state matches SchedulerState::Armed(timer) ==> timer.id == self.issued
    }

    /// A scheduler with no timer outstanding.
    pub fn new() -> (r: Scheduler)
        ensures
            r.wf(),
            r.state == SchedulerState::Idle,
            r.issued == 0,
    {
        Scheduler { state: SchedulerState::Idle, issued: 0 }
    }

    /// Whether a timer is outstanding.
    pub fn is_armed(&self) -> (r: bool)
        ensures
            r == (self.state is Armed),
    {
        match self.state {
            SchedulerState::Idle => false,
            SchedulerState::Armed(_) => true,
        }
    }

    /// Takes one event at time `now`.
    ///
    /// On an accepted event everything due leaves `index` and is handed out
    /// for publication; a timer is then aimed at the nearest instant left,
    /// after the one outstanding, if any, has been cancelled. With nothing
    /// left the machine is idle. An event that is not accepted changes
    /// nothing and asks for nothing.
    pub fn handle(&mut self, index: &mut ScheduleIndex, event: SchedulerEvent, now: Instant) -> (d:
        Directive)
        requires
            old(self).wf(),
            old(index).wf(),
        ensures
            final(self).wf(),
            final(index).wf(),
            follows_protocol(
                Step {
                    before: old(self).state,
                    event,
                    cancel: d.cancel,
                    arm: d.arm,
                    after: final(self).state,
                },
            ),
            live_after(live(old(self).state), event, d.cancel, d.arm) == live(final(self).state),
            accepts(old(self).state, event) ==> {
                &&& final(index)@ == still_pending(old(index)@, now@)
                &&& is_due_list(d.publish@, forward_of(old(index)@), now@)
                &&& match d.arm {
                    Some(timer) => {
                        &&& is_earliest(final(index)@, timer.target@)
                        &&& timer.target@ > now@
                        &&& timer.id == next_id(old(self).issued)
                        &&& final(self).issued == timer.id
                        &&& d.wait_secs == timer.target.spec_wait_seconds(now)
                        &&& d.wait_secs >= 1
                    },
                    None => {
                        &&& final(index)@ == Map::<Seq<char>, int>::empty()
                        &&& final(self).issued == old(self).issued
                        &&& d.wait_secs == 0
                    },
                }
            },
            !accepts(old(self).state, event) ==> {
                &&& *final(index) == *old(index)
                &&& final(self).issued == old(self).issued
                &&& d.publish@.len() == 0
                &&& d.wait_secs == 0
            },
    {
        let cancel: Option<Timer> = match event {
            SchedulerEvent::Changed => match self.state {
                SchedulerState::Armed(current) => Some(current),
                SchedulerState::Idle => None,
            },
            SchedulerEvent::Scheduled(timer) => {
                let current_ran_out = match self.state {
                    SchedulerState::Armed(current) => current.id == timer.id
                        && current.target.nanos == timer.target.nanos,
                    SchedulerState::Idle => false,
                };
                if !current_ran_out {
                    return Directive { cancel: None, publish: Vec::new(), arm: None, wait_secs: 0 };
                }
                None
            },
        };
        let publish = index.take_due(now);
        let mut arm: Option<Timer> = None;
        let mut wait_secs: u64 = 0;
        match index.nearest() {
            Some(bucket) => {
                let id: u64 = if self.issued == u64::MAX {
                    0
                } else {
                    self.issued + 1
                };
                let timer = Timer { id, target: bucket.instant };
                wait_secs = timer.target.wait_seconds(now);
                arm = Some(timer);
                self.issued = id;
                self.state = SchedulerState::Armed(timer);
            },
            None => {
                self.state = SchedulerState::Idle;
            },
        }
        proof {
            assert(live_after(live(old(self).state), event, cancel, arm) =~= live(self.state));
        }
        Directive { cancel, publish, arm, wait_secs }
    }
}

} // verus!
