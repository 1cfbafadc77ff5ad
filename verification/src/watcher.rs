//! Run context and decision engine.
//!
//! The [`Context`] owns the state of the run in flight: its identifier, the
//! ordered steps with their timestamps, and the completion counter. The
//! decision engine, [`on_update`], folds a batch of classified events into
//! three facts — stop requested, files modified, combined process verdict —
//! and drives the context accordingly, returning the [`Decision`] taken and
//! the finalized outcome when a run completed. The caller performs the
//! decided action (exit, restart, stop processes) and forwards the outcome
//! to the reporting aggregator.

use vstd::prelude::*;

use crate::event::{ExecutorEvent, StepData};
use crate::filters::{event_has_path, event_has_stop_signal, Event, ProcessEnd, Tag};

verus! {

/// Configuration of the watch loop, as plain values.
#[derive(Clone, Debug)]
pub struct Config {
    pub watch_dir: String,
    pub build_dir: String,
    pub build_command: String,
    pub test_command: String,
    /// Debounce delay in seconds before a restart; `None` for no debounce.
    pub delay: Option<u64>,
}

/// The resolved build directory: the watch directory when none is
/// configured, the configured one as-is when absolute, otherwise the
/// configured one joined under the watch directory.
pub open spec fn spec_build_dir(c: Config) -> Seq<char> {
    if c.build_dir@.len() == 0 {
        c.watch_dir@
    } else if c.build_dir@[0] == '/' {
        c.build_dir@
    } else {
        c.watch_dir@ + "/"@ + c.build_dir@
    }
}

/// The number of configured steps: one per non-empty command.
pub open spec fn spec_steps_limit(c: Config) -> int {
    (if c.build_command@.len() == 0 {
        0int
    } else {
        1int
    }) + (if c.test_command@.len() == 0 {
        0int
    } else {
        1int
    })
}

impl Config {
    pub fn get_build_dir(&self) -> (r: String)
        ensures
            r@ == spec_build_dir(*self),
    {
        if self.build_dir.as_str().is_empty() {
            self.watch_dir.clone()
        } else if self.build_dir.as_str().get_char(0) == '/' {
            self.build_dir.clone()
        } else {
            let mut out = self.watch_dir.clone();
            out.append("/");
            out.append(self.build_dir.as_str());
            out
        }
    }
}

/// The name a step gets from its ordinal: the first configured command
/// builds, the second tests.
pub open spec fn spec_step_name(n: int) -> Seq<char> {
    if n == 0 {
        "Build"@
    } else if n == 1 {
        "Test"@
    } else {
        "Unknown"@
    }
}

/// State of the run in flight.
pub struct Context {
    pub config: Config,
    pub steps: Vec<StepData>,
    pub task_num: u64,
    pub steps_finished: usize,
    pub steps_limit: usize,
}

/// The steps of a run after the step at `fin` was stamped with its stop
/// timestamp and verdict; unchanged when no step stands at that index.
pub open spec fn stamped_steps(s: Seq<StepData>, fin: int, status: bool, now: u64) -> Seq<
    StepData,
> {
    if 0 <= fin < s.len() {
        s.update(
            fin,
            (StepData { status, start_at: s[fin].start_at, stop_at: now, name: s[fin].name }),
        )
    } else {
        s
    }
}

/// How one `finish_step` call relates the context before (`o`) and after
/// (`f`), and what it emits: a failing verdict finalizes the run as a `Fail`
/// outcome at once; a passing verdict finalizes it as `Success` exactly when
/// it completes the last configured step; otherwise the run stays in flight.
/// Finalizing resets the context for the next run without touching the run
/// counter.
pub open spec fn spec_finish_transition(
    o: Context,
    f: Context,
    status: bool,
    now: u64,
    emitted: Option<ExecutorEvent>,
) -> bool {
    let stamped = stamped_steps(o.steps@, o.steps_finished as int, status, now);
    let finalize = !status || o.steps_finished + 1 == o.steps_limit;
    &&& f.config == o.config
    &&& f.task_num == o.task_num
    &&& f.steps_limit == o.steps_limit
    &&& if o.steps@.len() == 0 {
        f == o && emitted is None
    } else if finalize {
        &&& f.steps@.len() == 0
        &&& f.steps_finished == 0
        &&& emitted matches Some(ev) && ev.is_success() == status && ev.run_id() == o.task_num
            && ev.steps() == stamped
    } else {
        &&& f.steps@ == stamped
        &&& f.steps_finished == o.steps_finished + 1
        &&& emitted is None
    }
}

impl Context {
    /// Well-formedness: at least one step is configured, an empty run has
    /// nothing finished, a run in flight has finished fewer steps than the
    /// limit, and every recorded step has ordered timestamps.
    pub open spec fn wf(self) -> bool {
        &&& self.steps_limit >= 1
        &&& (self.steps@.len() == 0 ==> self.steps_finished == 0)
        &&& (self.steps@.len() > 0 ==> self.steps_finished < self.steps_limit)
        &&& (forall|i: int| 0 <= i < self.steps@.len() ==> (#[trigger] self.steps@[i]).wf())
    }

    pub fn new(config: Config) -> (r: Context)
        ensures
            r.config == config,
            r.steps@.len() == 0,
            r.steps_finished == 0,
            r.task_num == 0,
            r.steps_limit == spec_steps_limit(config),
            spec_steps_limit(config) >= 1 ==> r.wf(),
    {
        let steps_limit = (if config.build_command.as_str().is_empty() {
            0
        } else {
            1
        }) + (if config.test_command.as_str().is_empty() {
            0
        } else {
            1
        });
        Context { config, steps: Vec::new(), steps_finished: 0, task_num: 0, steps_limit }
    }

    pub fn get_step_name(&self) -> (r: String)
        ensures
            r@ == spec_step_name(self.steps@.len() as int),
    {
        let n = self.steps.len();
        if n == 0 {
            "Build".to_owned()
        } else if n == 1 {
            "Test".to_owned()
        } else {
            "Unknown".to_owned()
        }
    }

    /// Record the start of the next step at time `now`. A new run identifier
    /// is allocated exactly when the run is empty, so the identifier
    /// increments once per run, on its first step, and never otherwise.
    pub fn start_step(&mut self, now: u64)
        requires
            old(self).wf(),
            old(self).task_num < u64::MAX,
        ensures
            final(self).wf(),
            final(self).config == old(self).config,
            final(self).steps_limit == old(self).steps_limit,
            final(self).steps_finished == old(self).steps_finished,
            final(self).task_num == (if old(self).steps@.len() == 0 {
                old(self).task_num + 1
            } else {
                old(self).task_num as int
            }),
            final(self).steps@ == old(self).steps@.push(final(self).steps@.last()),
            final(self).steps@.last().status == false,
            final(self).steps@.last().start_at == now,
            final(self).steps@.last().stop_at == now,
            final(self).steps@.last().name@ == spec_step_name(old(self).steps@.len() as int),
    {
        if self.steps.is_empty() {
            self.task_num = self.task_num + 1;
        }
        let name = self.get_step_name();
        let step = StepData { status: false, start_at: now, stop_at: now, name };
        self.steps.push(step);
    }

    /// Record the completion of the step in flight with its verdict,
    /// following [`spec_finish_transition`]. A completion with no
    /// corresponding start (empty run) is ignored.
    pub fn finish_step(&mut self, status: bool, now: u64) -> (r: Option<ExecutorEvent>)
        requires
            old(self).wf(),
            old(self).steps_finished < old(self).steps@.len() ==> old(self).steps@[old(
                self,
            ).steps_finished as int].start_at <= now,
        ensures
            final(self).wf(),
            spec_finish_transition(*old(self), *final(self), status, now, r),
            r matches Some(ev) ==> ev.wf(),
    {
        if self.steps.is_empty() {
            return None;
        }
        if self.steps_finished < self.steps.len() {
            let idx = self.steps_finished;
            self.steps[idx].stop_at = now;
            self.steps[idx].status = status;
        }
        proof {
            assert(self.steps@ =~= stamped_steps(
                old(self).steps@,
                old(self).steps_finished as int,
                status,
                now,
            ));
        }
        self.steps_finished = self.steps_finished + 1;
        if status {
            self.on_success()
        } else {
            self.on_fail()
        }
    }

    /// Finalize the run as a success once the last configured step finished.
    fn on_success(&mut self) -> (r: Option<ExecutorEvent>)
        ensures
            final(self).config == old(self).config,
            final(self).task_num == old(self).task_num,
            final(self).steps_limit == old(self).steps_limit,
            old(self).steps_finished == old(self).steps_limit ==> {
                &&& final(self).steps@.len() == 0
                &&& final(self).steps_finished == 0
                &&& r matches Some(ev) && ev.is_success() && ev.run_id() == old(self).task_num
                    && ev.steps() == old(self).steps@
            },
            old(self).steps_finished != old(self).steps_limit ==> *final(self) == *old(self) && r
                is None,
    {
        if self.steps_finished == self.steps_limit {
            let id = self.task_num;
            let payload = self.take_steps();
            self.reset();
            Some(ExecutorEvent::Success(id, payload))
        } else {
            None
        }
    }

    /// Finalize the run as a failure: a single failing step aborts the whole
    /// run whatever steps remain.
    fn on_fail(&mut self) -> (r: Option<ExecutorEvent>)
        ensures
            final(self).config == old(self).config,
            final(self).task_num == old(self).task_num,
            final(self).steps_limit == old(self).steps_limit,
            final(self).steps@.len() == 0,
            final(self).steps_finished == 0,
            r matches Some(ev) && !ev.is_success() && ev.run_id() == old(self).task_num
                && ev.steps() == old(self).steps@,
    {
        let id = self.task_num;
        let payload = self.take_steps();
        self.reset();
        Some(ExecutorEvent::Fail(id, payload))
    }

    /// Swap the current step buffer out, leaving an empty one behind.
    pub fn take_steps(&mut self) -> (out: Vec<StepData>)
        ensures
            out@ == old(self).steps@,
            final(self).steps@.len() == 0,
            final(self).config == old(self).config,
            final(self).task_num == old(self).task_num,
            final(self).steps_finished == old(self).steps_finished,
            final(self).steps_limit == old(self).steps_limit,
    {
        let mut out: Vec<StepData> = Vec::new();
        core::mem::swap(&mut self.steps, &mut out);
        out
    }

    /// Clear the run state; the run identifier is not reset and stays
    /// monotonic across runs.
    pub fn reset(&mut self)
        ensures
            final(self).steps@.len() == 0,
            final(self).steps_finished == 0,
            final(self).config == old(self).config,
            final(self).task_num == old(self).task_num,
            final(self).steps_limit == old(self).steps_limit,
    {
        self.steps.clear();
        self.steps_finished = 0;
    }
}

/// In every well-formed context, however it was reached, the count of
/// finished steps never exceeds the configured step limit.
pub proof fn lemma_steps_finished_bounded(ctx: Context)
    requires
        ctx.wf(),
    ensures
        ctx.steps_finished <= ctx.steps_limit,
{
}

/// The verdict of the first process-completion tag of an event, if any:
/// a clean exit reports success, any other recorded end reports failure, and
/// a completion without verdict reports nothing.
pub open spec fn spec_command_result(tags: Seq<Tag>) -> Option<bool>
    decreases tags.len(),
{
    if tags.len() == 0 {
        None
    } else {
        match tags[0] {
            Tag::ProcessCompletion(res) => match res {
                Some(ProcessEnd::Success) => Some(true),
                Some(_) => Some(false),
                None => None,
            },
            _ => spec_command_result(tags.drop_first()),
        }
    }
}

pub fn get_command_result(event: &Event) -> (r: Option<bool>)
    ensures
        r == spec_command_result(event.tags@),
{
    let n = event.tags.len();
    proof {
        assert(event.tags@.skip(0) =~= event.tags@);
    }
    let mut i: usize = 0;
    while i < n
        invariant
            i <= n,
            n == event.tags@.len(),
            spec_command_result(event.tags@) == spec_command_result(event.tags@.skip(i as int)),
        decreases n - i,
    {
        proof {
            assert(event.tags@.skip(i as int).drop_first() =~= event.tags@.skip(i as int + 1));
            assert(event.tags@.skip(i as int)[0] == event.tags@[i as int]);
        }
        match &event.tags[i] {
            Tag::ProcessCompletion(res) => {
                return match res {
                    Some(ProcessEnd::Success) => Some(true),
                    Some(_) => Some(false),
                    None => None,
                };
            },
            _ => {},
        }
        i += 1;
    }
    proof {
        assert(event.tags@.skip(n as int) =~= Seq::<Tag>::empty());
    }
    None
}

/// Some event of the batch carries a stop signal.
pub open spec fn spec_batch_stop(events: Seq<Event>) -> bool {
    exists|i: int| 0 <= i < events.len() && (#[trigger] events[i]).has_stop_signal()
}

/// Some event of the batch carries a changed path.
pub open spec fn spec_batch_mods(events: Seq<Event>) -> bool {
    exists|i: int| 0 <= i < events.len() && (#[trigger] events[i]).has_path()
}

/// Every process verdict present in the batch is a success.
pub open spec fn all_reports_succeed(events: Seq<Event>) -> bool {
    forall|i: int|
        0 <= i < events.len() ==> match spec_command_result((#[trigger] events[i]).tags@) {
            Some(b) => b,
            None => true,
        }
}

/// The combined process verdict of the batch: present when any event carries
/// a verdict, and a success only when all present verdicts are.
pub open spec fn spec_batch_status(events: Seq<Event>) -> Option<bool> {
    if exists|i: int|
        0 <= i < events.len() && spec_command_result((#[trigger] events[i]).tags@) is Some {
        Some(all_reports_succeed(events))
    } else {
        None
    }
}

/// What the engine decided for one event batch; the caller carries the
/// decision out against the process supervisor and the watch loop.
#[derive(Clone, Copy, Debug, PartialEq, Eq, Structural)]
pub enum Decision {
    /// Shut the whole engine down; the run in flight is abandoned unreported.
    Terminate,
    /// Start the first configured command, after clearing residual process
    /// state and waiting the debounce delay, if one is configured.
    Restart { debounce: Option<u64> },
    /// Changes arrived while a run is in flight: do nothing.
    Coalesce,
    /// A combined process verdict was folded into the run; on a failing
    /// verdict the caller must also stop any process still running.
    Finish(bool),
    /// Nothing recognizable happened.
    Ignore,
}

/// Process one event batch: stop signals take priority over modifications,
/// which take priority over process completions; every event of the batch is
/// considered for each of the three facts.
pub fn on_update(context: &mut Context, events: &Vec<Event>, now: u64) -> (r: (
    Decision,
    Option<ExecutorEvent>,
))
    requires
        old(context).wf(),
        old(context).steps_finished < old(context).steps@.len() ==> old(context).steps@[old(
            context,
        ).steps_finished as int].start_at <= now,
    ensures
        final(context).wf(),
        ({
            let stop = spec_batch_stop(events@);
            let mods = spec_batch_mods(events@);
            let status = spec_batch_status(events@);
            &&& (stop ==> r.0 is Terminate && r.1 is None && *final(context) == *old(context))
            &&& (!stop && mods && old(context).steps@.len() > 0 ==> r.0 is Coalesce && r.1 is None
                && *final(context) == *old(context))
            &&& (!stop && mods && old(context).steps@.len() == 0 ==> r.0 == (Decision::Restart {
                debounce: old(context).config.delay,
            }) && r.1 is None && *final(context) == *old(context))
            &&& (match status {
                Some(b) => !stop && !mods ==> r.0 == Decision::Finish(b)
                    && spec_finish_transition(*old(context), *final(context), b, now, r.1)
                    && (match r.1 {
                    Some(ev) => ev.wf(),
                    None => true,
                }),
                None => !stop && !mods ==> r.0 is Ignore && r.1 is None && *final(context) == *old(context),
            })
        }),
{
    let mut event_stop = false;
    let mut event_mods = false;
    let mut process_status: Option<bool> = None;
    let n = events.len();
    let mut i: usize = 0;
    while i < n
        invariant
            i <= n,
            n == events@.len(),
            event_stop == spec_batch_stop(events@.take(i as int)),
            event_mods == spec_batch_mods(events@.take(i as int)),
            process_status == spec_batch_status(events@.take(i as int)),
        decreases n - i,
    {
        let e = &events[i];
        let e_stop = event_has_stop_signal(e);
        let e_path = event_has_path(e);
        let e_result = get_command_result(e);
        proof {
            let pre = events@.take(i as int);
            let post = events@.take(i as int + 1);
            assert(forall|j: int| 0 <= j < pre.len() ==> pre[j] == events@[j]);
            assert(forall|j: int| 0 <= j < post.len() ==> post[j] == events@[j]);
            assert(post[i as int] == events@[i as int]);
            assert(spec_batch_stop(post) == (spec_batch_stop(pre) || events@[i as int]
                .has_stop_signal())) by {
                if spec_batch_stop(pre) {
                    let j = choose|j: int| 0 <= j < pre.len() && (#[trigger] pre[j])
                        .has_stop_signal();
                    assert(post[j].has_stop_signal());
                }
                if events@[i as int].has_stop_signal() {
                    assert(post[i as int].has_stop_signal());
                }
                if spec_batch_stop(post) && !events@[i as int].has_stop_signal() {
                    let j = choose|j: int| 0 <= j < post.len() && (#[trigger] post[j])
                        .has_stop_signal();
                    assert(pre[j].has_stop_signal());
                }
            };
            assert(spec_batch_mods(post) == (spec_batch_mods(pre) || events@[i as int].has_path()))
                by {
                if spec_batch_mods(pre) {
                    let j = choose|j: int| 0 <= j < pre.len() && (#[trigger] pre[j]).has_path();
                    assert(post[j].has_path());
                }
                if events@[i as int].has_path() {
                    assert(post[i as int].has_path());
                }
                if spec_batch_mods(post) && !events@[i as int].has_path() {
                    let j = choose|j: int| 0 <= j < post.len() && (#[trigger] post[j]).has_path();
                    assert(pre[j].has_path());
                }
            };
            let ri = spec_command_result(events@[i as int].tags@);
            assert(all_reports_succeed(post) == (all_reports_succeed(pre) && match ri {
                Some(b) => b,
                None => true,
            })) by {
                if all_reports_succeed(pre) && match ri {
                    Some(b) => b,
                    None => true,
                } {
                    assert forall|j: int| 0 <= j < post.len() implies match spec_command_result(
                        (#[trigger] post[j]).tags@,
                    ) {
                        Some(b) => b,
                        None => true,
                    } by {
                        if j < i as int {
                            assert(pre[j] == post[j]);
                        }
                    }
                }
            };
            assert((exists|j: int|
                0 <= j < post.len() && spec_command_result((#[trigger] post[j]).tags@) is Some)
                == ((exists|j: int|
                0 <= j < pre.len() && spec_command_result((#[trigger] pre[j]).tags@) is Some) || ri
                is Some)) by {
                if exists|j: int|
                    0 <= j < pre.len() && spec_command_result((#[trigger] pre[j]).tags@) is Some {
                    let j = choose|j: int|
                        0 <= j < pre.len() && spec_command_result(
                            (#[trigger] pre[j]).tags@,
                        ) is Some;
                    assert(spec_command_result(post[j].tags@) is Some);
                }
                if ri is Some {
                    assert(spec_command_result(post[i as int].tags@) is Some);
                }
                if (exists|j: int|
                    0 <= j < post.len() && spec_command_result(
                        (#[trigger] post[j]).tags@,
                    ) is Some) && !(ri is Some) {
                    let j = choose|j: int|
                        0 <= j < post.len() && spec_command_result(
                            (#[trigger] post[j]).tags@,
                        ) is Some;
                    assert(spec_command_result(pre[j].tags@) is Some);
                }
            };
        }
        event_stop = event_stop || e_stop;
        event_mods = event_mods || e_path;
        match e_result {
            Some(value) => {
                let combined = match process_status {
                    Some(prev) => prev && value,
                    None => value,
                };
                process_status = Some(combined);
            },
            None => {},
        }
        i += 1;
    }
    proof {
        assert(events@.take(n as int) =~= events@);
    }
    if event_stop {
        (Decision::Terminate, None)
    } else if event_mods {
        if run_in_flight(context) {
            (Decision::Coalesce, None)
        } else {
            (Decision::Restart { debounce: context.config.delay }, None)
        }
    } else if let Some(status) = process_status {
        let emitted = context.finish_step(status, now);
        (Decision::Finish(status), emitted)
    } else {
        (Decision::Ignore, None)
    }
}

/// Whether a run is currently in flight: the context holds started steps
/// that were not yet consumed by a finalized outcome.
fn run_in_flight(context: &Context) -> (r: bool)
    ensures
        r == (context.steps@.len() > 0),
{
    context.steps.len() > 0
}

/// A command line split into program and arguments.
#[derive(Clone, Debug)]
pub struct Command {
    pub prog: String,
    pub args: Vec<String>,
}

/// The words of a command line, split on every single space; consecutive
/// spaces and an empty line yield empty words, as splitting does.
pub open spec fn spec_split_words(s: Seq<char>) -> Seq<Seq<char>>
    decreases s.len(),
{
    if s.len() == 0 {
        seq![Seq::<char>::empty()]
    } else if s[0] == ' ' {
        seq![Seq::<char>::empty()] + spec_split_words(s.drop_first())
    } else {
        let r = spec_split_words(s.drop_first());
        r.update(0, seq![s[0]] + r[0])
    }
}

pub proof fn lemma_split_words_len(s: Seq<char>)
    ensures
        spec_split_words(s).len() >= 1,
    decreases s.len(),
{
    if s.len() > 0 {
        lemma_split_words_len(s.drop_first());
    }
}

/// A line without spaces is one single word.
pub proof fn lemma_split_words_no_space(s: Seq<char>)
    requires
        forall|k: int| 0 <= k < s.len() ==> s[k] != ' ',
    ensures
        spec_split_words(s) == seq![s],
    decreases s.len(),
{
    if s.len() == 0 {
        assert(s =~= Seq::<char>::empty());
        assert(spec_split_words(s) =~= seq![s]);
    } else {
        lemma_split_words_no_space(s.drop_first());
        lemma_split_words_len(s.drop_first());
        assert(seq![s[0]] + s.drop_first() =~= s);
        assert(spec_split_words(s) =~= seq![s]);
    }
}

/// Splitting at the first space: the prefix before it is the first word and
/// the rest splits on its own.
pub proof fn lemma_split_words_at_space(s: Seq<char>, k: int)
    requires
        0 <= k < s.len(),
        s[k] == ' ',
        forall|j: int| 0 <= j < k ==> s[j] != ' ',
    ensures
        spec_split_words(s) == seq![s.take(k)] + spec_split_words(s.skip(k + 1)),
    decreases k,
{
    if k == 0 {
        assert(s.drop_first() =~= s.skip(1));
        assert(s.take(0) =~= Seq::<char>::empty());
        assert(spec_split_words(s) =~= seq![s.take(0)] + spec_split_words(s.skip(1)));
    } else {
        lemma_split_words_at_space(s.drop_first(), k - 1);
        lemma_split_words_len(s.drop_first().skip(k));
        assert(seq![s[0]] + s.drop_first().take(k - 1) =~= s.take(k));
        assert(s.drop_first().skip(k) =~= s.skip(k + 1));
        assert(spec_split_words(s) =~= seq![s.take(k)] + spec_split_words(s.skip(k + 1)));
    }
}

/// Split a command line into its program (the first word) and arguments
/// (the remaining words). Every line yields a command, since splitting
/// always yields at least one word.
pub fn parse_command(input: &str) -> (r: Option<Command>)
    ensures
        r matches Some(cmd) && cmd.prog@ == spec_split_words(input@)[0]
            && cmd.args@.map_values(|a: String| a@) == spec_split_words(input@).drop_first(),
{
    let len = input.unicode_len();
    let mut words: Vec<String> = Vec::new();
    let mut start: usize = 0;
    let mut i: usize = 0;
    proof {
        assert(input@.skip(0) =~= input@);
        assert(words@.map_values(|a: String| a@) + spec_split_words(input@) =~= spec_split_words(
            input@,
        ));
    }
    while i < len
        invariant
            start <= i <= len,
            len == input@.len(),
            forall|k: int| start <= k < i ==> input@[k] != ' ',
            words@.map_values(|a: String| a@) + spec_split_words(input@.skip(start as int))
                == spec_split_words(input@),
        decreases len - i,
    {
        if input.get_char(i) == ' ' {
            let w = input.substring_char(start, i).to_owned();
            proof {
                let x = input@.skip(start as int);
                assert forall|j: int| 0 <= j < i - start implies x[j] != ' ' by {
                    assert(x[j] == input@[start + j]);
                }
                lemma_split_words_at_space(x, i - start as int);
                assert(x.take(i - start as int) =~= input@.subrange(start as int, i as int));
                assert(x.skip(i - start as int + 1) =~= input@.skip(i as int + 1));
                assert(words@.push(w).map_values(|a: String| a@) =~= words@.map_values(
                    |a: String| a@,
                ).push(w@));
                assert(words@.map_values(|a: String| a@).push(w@) + spec_split_words(
                    input@.skip(i as int + 1),
                ) =~= words@.map_values(|a: String| a@) + (seq![w@] + spec_split_words(
                    input@.skip(i as int + 1),
                )));
            }
            words.push(w);
            start = i + 1;
        }
        i += 1;
    }
    let w = input.substring_char(start, len).to_owned();
    proof {
        let x = input@.skip(start as int);
        assert forall|j: int| 0 <= j < x.len() implies x[j] != ' ' by {
            assert(x[j] == input@[start + j]);
        }
        lemma_split_words_no_space(x);
        assert(x =~= input@.subrange(start as int, len as int));
        assert(words@.push(w).map_values(|a: String| a@) =~= words@.map_values(
            |a: String| a@,
        ).push(w@));
        assert(words@.map_values(|a: String| a@).push(w@) =~= words@.map_values(|a: String| a@)
            + seq![w@]);
    }
    let mut words = words;
    words.push(w);
    if words.len() > 0 {
        let prog = words.remove(0);
        proof {
            assert(words@.map_values(|a: String| a@) =~= spec_split_words(input@).drop_first());
        }
        Some(Command { prog, args: words })
    } else {
        None
    }
}

impl Config {
    /// The configured commands in step order: the build command first, then
    /// the test command.
    pub fn get_commands(&self) -> (r: Vec<Command>)
        ensures
            r@.len() == 2,
            r@[0].prog@ == spec_split_words(self.build_command@)[0],
            r@[0].args@.map_values(|a: String| a@) == spec_split_words(
                self.build_command@,
            ).drop_first(),
            r@[1].prog@ == spec_split_words(self.test_command@)[0],
            r@[1].args@.map_values(|a: String| a@) == spec_split_words(
                self.test_command@,
            ).drop_first(),
    {
        let mut cmds: Vec<Command> = Vec::new();
        cmds.push(parse_command(self.build_command.as_str()).unwrap());
        if let Some(test_cmd) = parse_command(self.test_command.as_str()) {
            cmds.push(test_cmd);
        }
        cmds
    }
}

/// Whether a character is a decimal digit.
pub open spec fn is_digit_char(c: char) -> bool {
    48 <= c as u32 <= 57
}

/// The value of one decimal digit.
pub open spec fn digit_of(c: char) -> int {
    c as u32 - 48
}

/// The value of a sequence of decimal digits, most significant first.
pub open spec fn digits_val(s: Seq<char>) -> int
    decreases s.len(),
{
    if s.len() == 0 {
        0
    } else {
        digits_val(s.drop_last()) * 10 + digit_of(s.last())
    }
}

/// On digit strings, the value of a prefix never exceeds the whole value.
pub proof fn lemma_digits_val_prefix(s: Seq<char>, m: int)
    requires
        0 <= m <= s.len(),
        forall|k: int| 0 <= k < s.len() ==> is_digit_char(#[trigger] s[k]),
    ensures
        digits_val(s) >= digits_val(s.take(m)) >= 0,
    decreases s.len() - m,
{
    if m == s.len() {
        assert(s.take(m) =~= s);
        lemma_digits_val_nonneg(s);
    } else {
        lemma_digits_val_prefix(s, m + 1);
        assert(s.take(m + 1).drop_last() =~= s.take(m));
        assert(s.take(m + 1).last() == s[m]);
        lemma_digits_val_nonneg(s.take(m));
    }
}

pub proof fn lemma_digits_val_nonneg(s: Seq<char>)
    requires
        forall|k: int| 0 <= k < s.len() ==> is_digit_char(#[trigger] s[k]),
    ensures
        digits_val(s) >= 0,
    decreases s.len(),
{
    if s.len() > 0 {
        assert(forall|k: int| 0 <= k < s.drop_last().len() ==> is_digit_char(
            #[trigger] s.drop_last()[k],
        ));
        lemma_digits_val_nonneg(s.drop_last());
    }
}

/// The value a decimal string denotes: an optional leading `'+'`, then one
/// or more digits, denoting a value that fits in a `u64`; anything else
/// denotes nothing.
pub open spec fn spec_digits_to_u64(t: Seq<char>) -> Option<u64> {
    if t.len() >= 1 && (forall|k: int| 0 <= k < t.len() ==> is_digit_char(#[trigger] t[k]))
        && digits_val(t) <= u64::MAX {
        Some(digits_val(t) as u64)
    } else {
        None
    }
}

pub open spec fn spec_parse_u64(s: Seq<char>) -> Option<u64> {
    spec_digits_to_u64(
        if s.len() > 0 && s[0] == '+' {
            s.drop_first()
        } else {
            s
        },
    )
}

fn parse_u64(s: &str) -> (r: Option<u64>)
    ensures
        r == spec_parse_u64(s@),
{
    let len = s.unicode_len();
    let start: usize = if len > 0 && s.get_char(0) == '+' {
        1
    } else {
        0
    };
    let ghost t = if s@.len() > 0 && s@[0] == '+' {
        s@.drop_first()
    } else {
        s@
    };
    proof {
        assert(t =~= s@.subrange(start as int, len as int));
        assert(spec_parse_u64(s@) == spec_digits_to_u64(t));
    }
    if start >= len {
        return None;
    }
    let mut val: u64 = 0;
    let mut i: usize = start;
    proof {
        assert(s@.subrange(start as int, start as int) =~= t.take(0));
    }
    while i < len
        invariant
            start <= i <= len,
            start < len,
            len == s@.len(),
            t == s@.subrange(start as int, len as int),
            spec_parse_u64(s@) == spec_digits_to_u64(t),
            forall|k: int| 0 <= k < i - start ==> is_digit_char(#[trigger] t[k]),
            0 <= digits_val(t.take(i - start as int)) <= u64::MAX,
            val == digits_val(t.take(i - start as int)),
        decreases len - i,
    {
        let c = s.get_char(i);
        let cu = c as u32;
        proof {
            assert(t[i - start as int] == s@[i as int]);
        }
        if cu < 48 || cu > 57 {
            proof {
                assert(!is_digit_char(t[i - start as int]));
                assert(spec_digits_to_u64(t) is None);
            }
            return None;
        }
        let d = (cu - 48) as u64;
        proof {
            assert(t.take(i - start as int + 1).drop_last() =~= t.take(i - start as int));
            assert(t.take(i - start as int + 1).last() == t[i - start as int]);
        }
        if val > (u64::MAX - d) / 10 {
            proof {
                assert(val * 10 + d > u64::MAX) by (nonlinear_arith)
                    requires
                        val > (u64::MAX - d) / 10,
                        d <= 9,
                        (u64::MAX - d) / 10 == ((u64::MAX - d) as int) / 10,
                ;
                assert(digits_val(t.take(i - start as int + 1)) > u64::MAX);
                if forall|k: int| 0 <= k < t.len() ==> is_digit_char(#[trigger] t[k]) {
                    lemma_digits_val_prefix(t, i - start as int + 1);
                }
                assert(spec_digits_to_u64(t) is None);
            }
            return None;
        }
        val = val * 10 + d;
        i += 1;
    }
    proof {
        assert(t.take(len - start as int) =~= t);
        assert(spec_digits_to_u64(t) == Some(val));
    }
    Some(val)
}

/// Read the configured debounce delay, in whole seconds. An empty setting
/// means no delay; any other setting must be a decimal number of seconds.
pub fn read_delay(delay: &str) -> (r: Option<u64>)
    ensures
        delay@.len() == 0 ==> r is None,
        delay@.len() > 0 ==> r == spec_parse_u64(delay@),
{
    if delay.is_empty() {
        None
    } else {
        parse_u64(delay)
    }
}

/// A missing directory, with the message shown for it.
#[derive(Debug)]
pub struct NotFoundError {
    pub msg: String,
}

pub fn not_found_err(txt: &str) -> (e: NotFoundError)
    ensures
        e.msg@ == txt@,
{
    NotFoundError { msg: txt.to_owned() }
}

/// Validate the startup precondition from the outcome of the directory
/// probes: both the watch and the resolved build directory must exist, the
/// watch directory being checked first.
pub fn check_dirs(watch_dir_exists: bool, build_dir_exists: bool) -> (r: Result<
    (),
    NotFoundError,
>)
    ensures
        r is Ok <==> (watch_dir_exists && build_dir_exists),
        !watch_dir_exists ==> (r matches Err(e) && e.msg@ == "invalid watch directory"@),
        (watch_dir_exists && !build_dir_exists) ==> (r matches Err(e) && e.msg@
            == "invalid build directory"@),
{
    if !watch_dir_exists {
        Err(not_found_err("invalid watch directory"))
    } else if !build_dir_exists {
        Err(not_found_err("invalid build directory"))
    } else {
        Ok(())
    }
}

} // verus!
