//! Run outcomes and the bounded result channel.
//!
//! A finalized run is described by an [`ExecutorEvent`]: the run identifier
//! together with the ordered steps it executed. Outcomes travel from the
//! decision engine to the reporting aggregator through a [`ResultChannel`],
//! a bounded FIFO queue with an explicit overflow policy: a send onto a full
//! channel is rejected and returns the outcome to the caller instead of
//! crashing the engine.

use vstd::prelude::*;

verus! {

/// Capacity of the result channel: outcomes are rare relative to this bound.
pub const CHANNEL_CAPACITY: usize = 16;

/// One executed step of a run: its name, timestamps (in milliseconds on a
/// monotonic clock) and whether the command it ran succeeded.
#[derive(Clone, Debug)]
pub struct StepData {
    pub status: bool,
    pub start_at: u64,
    pub stop_at: u64,
    pub name: String,
}

impl StepData {
    /// A step is well formed once its stop timestamp does not precede its
    /// start timestamp; a step that was started but not yet finished has
    /// `stop_at == start_at`.
    pub open spec fn wf(self) -> bool {
        self.start_at <= self.stop_at
    }

    /// Duration of the step in milliseconds.
    pub open spec fn spec_duration(self) -> u64
        recommends
            self.wf(),
    {
        (self.stop_at - self.start_at) as u64
    }

    pub fn get_duration(&self) -> (d: u64)
        requires
            self.wf(),
        ensures
            d == self.spec_duration(),
    {
        self.stop_at - self.start_at
    }
}

/// A finalized run outcome: all configured steps completed successfully, or
/// some step failed. Both carry the run identifier and exactly the steps
/// executed before success or failure.
#[derive(Debug)]
pub enum ExecutorEvent {
    Success(u64, Vec<StepData>),
    Fail(u64, Vec<StepData>),
}

impl ExecutorEvent {
    pub open spec fn run_id(self) -> u64 {
        match self {
            ExecutorEvent::Success(id, _) => id,
            ExecutorEvent::Fail(id, _) => id,
        }
    }

    pub open spec fn steps(self) -> Seq<StepData> {
        match self {
            ExecutorEvent::Success(_, steps) => steps@,
            ExecutorEvent::Fail(_, steps) => steps@,
        }
    }

    pub open spec fn is_success(self) -> bool {
        self is Success
    }

    /// An outcome is well formed when every step it carries is.
    pub open spec fn wf(self) -> bool {
        forall|i: int| 0 <= i < self.steps().len() ==> (#[trigger] self.steps()[i]).wf()
    }
}

/// Bounded FIFO handoff of finalized outcomes from the decision engine to
/// the reporting aggregator.
pub struct ResultChannel {
    pub queue: Vec<ExecutorEvent>,
    pub capacity: usize,
}

/// A fresh, empty result channel with the fixed capacity.
pub fn make_channel() -> (c: ResultChannel)
    ensures
        c.queue@.len() == 0,
        c.capacity == CHANNEL_CAPACITY,
{
    ResultChannel { queue: Vec::new(), capacity: CHANNEL_CAPACITY }
}

impl ResultChannel {
    /// Non-blocking send. The overflow policy is explicit: a send onto a
    /// full channel leaves the queue alone and hands the outcome back to
    /// the caller, instead of failing the whole engine.
    pub fn try_send(&mut self, event: ExecutorEvent) -> (r: Result<(), ExecutorEvent>)
        ensures
            final(self).capacity == old(self).capacity,
            old(self).queue@.len() < old(self).capacity ==> r is Ok && final(self).queue@ == old(
                self,
            ).queue@.push(event),
            old(self).queue@.len() >= old(self).capacity ==> (r matches Err(e) && e == event)
                && *final(self) == *old(self),
    {
        if self.queue.len() < self.capacity {
            self.queue.push(event);
            Ok(())
        } else {
            Err(event)
        }
    }

    /// Receive the oldest outcome, if any: strict arrival order.
    pub fn recv(&mut self) -> (r: Option<ExecutorEvent>)
        ensures
            final(self).capacity == old(self).capacity,
            old(self).queue@.len() == 0 ==> r is None && *final(self) == *old(self),
            old(self).queue@.len() > 0 ==> (r matches Some(ev) && ev == old(self).queue@[0])
                && final(self).queue@ == old(self).queue@.drop_first(),
    {
        if self.queue.len() > 0 {
            let ev = self.queue.remove(0);
            proof {
                assert(old(self).queue@.remove(0) =~= old(self).queue@.drop_first());
            }
            Some(ev)
        } else {
            None
        }
    }

    pub fn len(&self) -> (n: usize)
        ensures
            n == self.queue@.len(),
    {
        self.queue.len()
    }
}

} // verus!
