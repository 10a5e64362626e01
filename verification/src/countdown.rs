//! The countdown scheduler's state machine.
//!
//! A [`Countdown`] steps once per tick. While seconds remain, each step
//! yields a render of the remaining count together with the absolute
//! deadline (as an offset in seconds from the fixed start instant) at which
//! the next tick is due; deadlines are offsets from one fixed instant, not
//! chained delays, so rendering time cannot accumulate drift. When nothing
//! remains, one final step yields the completion signal. The caller performs
//! the actions; the state machine fixes their order and their values.

use vstd::prelude::*;

verus! {

/// One observable event of a countdown run.
pub enum Event {
    /// Display the remaining count; the next tick is due at
    /// `start + deadline` seconds.
    Render { remaining: nat, deadline: nat },
    /// Signal completion.
    Notify,
}

/// The action a caller is handed by one step of the countdown.
#[derive(Debug, Clone, Copy, PartialEq, Eq)]
pub enum TickStep {
    /// Render `remaining`, then suspend until the absolute instant
    /// `start + deadline_offset` seconds.
    Render { remaining: usize, deadline_offset: usize },
    /// The countdown is over: signal completion, exactly once.
    Finished,
}

impl TickStep {
    /// The event this step stands for.
    pub open spec fn event(self) -> Event {
        match self {
            TickStep::Render { remaining, deadline_offset } => Event::Render {
                remaining: remaining as nat,
                deadline: deadline_offset as nat,
            },
            TickStep::Finished => Event::Notify,
        }
    }
}

/// The events still ahead of a countdown of `total` seconds that has seen
/// `elapsed` ticks: one render per remaining second, then one completion
/// signal.
pub open spec fn trace_from(total: nat, elapsed: nat) -> Seq<Event>
    decreases total - elapsed,
{
    if elapsed >= total {
        seq![Event::Notify]
    } else {
        seq![
            Event::Render { remaining: (total - elapsed) as nat, deadline: elapsed + 1 },
        ] + trace_from(total, elapsed + 1)
    }
}

/// The countdown state machine: `elapsed` ticks done out of `total`, and
/// whether completion has been signalled.
pub struct Countdown {
    total: usize,
    elapsed: usize,
    notified: bool,
}

impl Countdown {
    /// Total length of the countdown, in seconds.
    pub closed spec fn total_spec(&self) -> nat {
        self.total as nat
    }

    /// Ticks done so far.
    pub closed spec fn elapsed_spec(&self) -> nat {
        self.elapsed as nat
    }

    /// True once completion has been signalled.
    pub closed spec fn notified_spec(&self) -> bool {
        self.notified
    }

    /// The state is consistent: no more ticks than the total, and the
    /// completion signal only at the very end.
    pub open spec fn wf(&self) -> bool {
        self.elapsed_spec() <= self.total_spec() && (self.notified_spec()
            ==> self.elapsed_spec() == self.total_spec())
    }

    /// The events this countdown will still produce.
    pub open spec fn remaining_trace(&self) -> Seq<Event> {
        if self.notified_spec() {
            Seq::<Event>::empty()
        } else {
            trace_from(self.total_spec(), self.elapsed_spec())
        }
    }

    /// Starts a countdown of `total` seconds.
    pub fn new(total: usize) -> (r: Countdown)
        ensures
            r.wf(),
            r.total_spec() == total,
            r.elapsed_spec() == 0,
            !r.notified_spec(),
    {
        Countdown { total, elapsed: 0, notified: false }
    }

    /// True once the countdown has produced all its events, the completion
    /// signal included.
    pub fn is_complete(&self) -> (r: bool)
        ensures
            r == self.notified_spec(),
            r == (self.remaining_trace().len() == 0),
    {
        self.notified
    }

    /// Seconds not yet ticked away.
    pub fn remaining(&self) -> (r: usize)
        requires
            self.wf(),
        ensures
            r == self.total_spec() - self.elapsed_spec(),
    {
        self.total - self.elapsed
    }

    /// One tick of the countdown: yields the next event of the trace and
    /// advances past it.
    pub fn step(&mut self) -> (e: TickStep)
        requires
            old(self).wf(),
            !old(self).notified_spec(),
        ensures
            final(self).wf(),
            final(self).total_spec() == old(self).total_spec(),
            old(self).remaining_trace() == seq![e.event()] + final(self).remaining_trace(),
            old(self).elapsed_spec() < old(self).total_spec() ==> e == (TickStep::Render {
                remaining: (old(self).total_spec() - old(self).elapsed_spec()) as usize,
                deadline_offset: (old(self).elapsed_spec() + 1) as usize,
            }) && final(self).elapsed_spec() == old(self).elapsed_spec() + 1
                && !final(self).notified_spec(),
            old(self).elapsed_spec() == old(self).total_spec() ==> e == TickStep::Finished
                && final(self).notified_spec(),
    {
        if self.elapsed < self.total {
            let remaining = self.total - self.elapsed;
            self.elapsed = self.elapsed + 1;
            let e = TickStep::Render { remaining, deadline_offset: self.elapsed };
            proof {
                assert(old(self).remaining_trace() =~= seq![e.event()]
                    + final(self).remaining_trace());
            }
            e
        } else {
            self.notified = true;
            proof {
                assert(old(self).remaining_trace() =~= seq![TickStep::Finished.event()]
                    + final(self).remaining_trace());
            }
            TickStep::Finished
        }
    }
}

/// The shape of a whole countdown run of `total` seconds, from its first
/// tick: the renders count down `total`, `total - 1`, ..., `1`, the tick
/// deadlines step through `1`, `2`, ..., `total` — each exactly one second
/// after the one before — and one completion signal follows the last render.
pub proof fn lemma_countdown_trace(total: nat)
    ensures
        trace_from(total, 0).len() == total + 1,
        forall|i: int|
            0 <= i < total ==> trace_from(total, 0)[i] == (Event::Render {
                remaining: (total - i) as nat,
                deadline: (i + 1) as nat,
            }),
        trace_from(total, 0)[total as int] == Event::Notify,
{
    lemma_trace_from_shape(total, 0);
}

/// A zero-length countdown never renders: its whole trace is the one
/// completion signal.
pub proof fn lemma_zero_countdown_trace()
    ensures
        trace_from(0, 0) =~= seq![Event::Notify],
{
}

/// Shape of the tail of a countdown trace, by induction over the remaining
/// ticks.
proof fn lemma_trace_from_shape(total: nat, elapsed: nat)
    requires
        elapsed <= total,
    ensures
        trace_from(total, elapsed).len() == total - elapsed + 1,
        forall|i: int|
            0 <= i < total - elapsed ==> trace_from(total, elapsed)[i] == (Event::Render {
                remaining: (total - elapsed - i) as nat,
                deadline: (elapsed + i + 1) as nat,
            }),
        trace_from(total, elapsed)[total - elapsed] == Event::Notify,
    decreases total - elapsed,
{
    if elapsed >= total {
    } else {
        lemma_trace_from_shape(total, elapsed + 1);
    }
}

} // verus!
