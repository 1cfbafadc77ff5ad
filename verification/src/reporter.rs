//! Reporting aggregator.
//!
//! Consumes finalized run outcomes and maintains the historical statistics:
//! pass and fail totals, and per step name the cumulative duration of
//! successful runs. Failed runs never contribute to history, since their
//! later steps never ran. From the totals it derives the rolling average
//! duration per step and the overall pass ratio, and computes the plain
//! values a renderer needs: status words, icon names, colour classes and
//! signed deltas.

use vstd::prelude::*;

use crate::event::{ExecutorEvent, StepData};

verus! {

/// Cumulative successful duration, in milliseconds, for one step name.
#[derive(Clone, Debug)]
pub struct HistoricalData {
    pub name: String,
    pub time_total: u64,
}

/// Addition that sticks at the largest representable total instead of
/// overflowing.
pub open spec fn sat_add(a: u64, b: u64) -> u64 {
    if a + b > u64::MAX {
        u64::MAX
    } else {
        (a + b) as u64
    }
}

/// The accumulated total recorded for `name`, scanning entries in order.
pub open spec fn hist_total(h: Seq<HistoricalData>, name: Seq<char>) -> Option<u64>
    decreases h.len(),
{
    if h.len() == 0 {
        None
    } else if h[0].name@ == name {
        Some(h[0].time_total)
    } else {
        hist_total(h.drop_first(), name)
    }
}

/// Every step name appears at most once in the history.
pub open spec fn distinct_names(h: Seq<HistoricalData>) -> bool {
    forall|i: int, j: int|
        0 <= i < j < h.len() ==> (#[trigger] h[i]).name@ != (#[trigger] h[j]).name@
}

/// No recorded total for a name means no entry carries that name.
pub proof fn lemma_hist_total_none(h: Seq<HistoricalData>, n: Seq<char>)
    ensures
        (hist_total(h, n) is None) <==> (forall|j: int|
            0 <= j < h.len() ==> (#[trigger] h[j]).name@ != n),
    decreases h.len(),
{
    if h.len() > 0 {
        lemma_hist_total_none(h.drop_first(), n);
        assert(forall|j: int| 0 <= j < h.drop_first().len() ==> #[trigger] h.drop_first()[j] == h[
            j + 1
        ]);
        if hist_total(h, n) is None {
            assert(h[0].name@ != n);
            assert forall|j: int| 0 <= j < h.len() implies (#[trigger] h[j]).name@ != n by {
                if j > 0 {
                    assert(h.drop_first()[j - 1] == h[j]);
                }
            }
        }
        if forall|j: int| 0 <= j < h.len() ==> (#[trigger] h[j]).name@ != n {
            assert(h[0].name@ != n);
            assert(forall|j: int|
                0 <= j < h.drop_first().len() ==> (#[trigger] h.drop_first()[j]).name@ != n);
            assert(hist_total(h.drop_first(), n) is None);
        }
    }
}

/// Replacing the first entry that carries a name changes the recorded total
/// for that name alone.
pub proof fn lemma_hist_total_update(
    h: Seq<HistoricalData>,
    k: int,
    e: HistoricalData,
    n2: Seq<char>,
)
    requires
        0 <= k < h.len(),
        e.name@ == h[k].name@,
        forall|j: int| 0 <= j < k ==> (#[trigger] h[j]).name@ != h[k].name@,
    ensures
        hist_total(h.update(k, e), n2) == (if n2 == h[k].name@ {
            Some(e.time_total)
        } else {
            hist_total(h, n2)
        }),
    decreases k,
{
    if k == 0 {
        assert(h.update(0, e).drop_first() =~= h.drop_first());
    } else {
        assert(h.update(k, e).drop_first() =~= h.drop_first().update(k - 1, e));
        assert(forall|j: int| 0 <= j < h.drop_first().len() ==> #[trigger] h.drop_first()[j] == h[
            j + 1
        ]);
        lemma_hist_total_update(h.drop_first(), k - 1, e, n2);
    }
}

/// Appending an entry leaves every recorded total alone and records the new
/// entry's total for its name when none was recorded yet.
pub proof fn lemma_hist_total_push(h: Seq<HistoricalData>, e: HistoricalData, n2: Seq<char>)
    ensures
        hist_total(h.push(e), n2) == (match hist_total(h, n2) {
            Some(t) => Some(t),
            None => if e.name@ == n2 {
                Some(e.time_total)
            } else {
                None
            },
        }),
    decreases h.len(),
{
    if h.len() == 0 {
        assert(h.push(e).len() == 1);
        assert(h.push(e)[0] == e);
        assert(h.push(e).drop_first() =~= Seq::<HistoricalData>::empty());
        assert(hist_total(Seq::<HistoricalData>::empty(), n2) is None);
    } else {
        assert(h.push(e)[0] == h[0]);
        assert(h.push(e).drop_first() =~= h.drop_first().push(e));
        lemma_hist_total_push(h.drop_first(), e, n2);
    }
}

/// The totals after folding the steps of one successful run, in order, into
/// the recorded total `cur` for `name`: each step carrying the name adds its
/// duration, saturating; the first one creates the record.
pub open spec fn accum(cur: Option<u64>, steps: Seq<StepData>, name: Seq<char>) -> Option<u64>
    decreases steps.len(),
{
    if steps.len() == 0 {
        cur
    } else {
        let cur2 = if steps[0].name@ == name {
            Some(
                match cur {
                    Some(t) => sat_add(t, steps[0].spec_duration()),
                    None => steps[0].spec_duration(),
                },
            )
        } else {
            cur
        };
        accum(cur2, steps.drop_first(), name)
    }
}

/// Steps that never carry the name leave the record alone.
pub proof fn lemma_accum_no_match(cur: Option<u64>, steps: Seq<StepData>, name: Seq<char>)
    requires
        forall|j: int| 0 <= j < steps.len() ==> (#[trigger] steps[j]).name@ != name,
    ensures
        accum(cur, steps, name) == cur,
    decreases steps.len(),
{
    if steps.len() > 0 {
        assert(forall|j: int|
            0 <= j < steps.drop_first().len() ==> #[trigger] steps.drop_first()[j] == steps[j + 1]);
        lemma_accum_no_match(cur, steps.drop_first(), name);
    }
}

/// After the first successful run, the record for a step name is exactly
/// that run's duration for its step of that name.
pub proof fn lemma_accum_first_run(steps: Seq<StepData>, i: int, name: Seq<char>)
    requires
        0 <= i < steps.len(),
        steps[i].name@ == name,
        forall|j: int| 0 <= j < steps.len() && j != i ==> (#[trigger] steps[j]).name@ != name,
    ensures
        accum(None, steps, name) == Some(steps[i].spec_duration()),
    decreases i,
{
    assert(forall|j: int|
        0 <= j < steps.drop_first().len() ==> #[trigger] steps.drop_first()[j] == steps[j + 1]);
    if i == 0 {
        lemma_accum_no_match(Some(steps[0].spec_duration()), steps.drop_first(), name);
    } else {
        lemma_accum_first_run(steps.drop_first(), i - 1, name);
    }
}

/// Each further successful run adds its duration for the name on top of the
/// recorded total, exactly, while the sum still fits.
pub proof fn lemma_accum_adds(t: u64, steps: Seq<StepData>, i: int, name: Seq<char>)
    requires
        0 <= i < steps.len(),
        steps[i].name@ == name,
        forall|j: int| 0 <= j < steps.len() && j != i ==> (#[trigger] steps[j]).name@ != name,
        t + steps[i].spec_duration() <= u64::MAX,
    ensures
        accum(Some(t), steps, name) == Some((t + steps[i].spec_duration()) as u64),
    decreases i,
{
    assert(forall|j: int|
        0 <= j < steps.drop_first().len() ==> #[trigger] steps.drop_first()[j] == steps[j + 1]);
    if i == 0 {
        lemma_accum_no_match(Some(sat_add(t, steps[0].spec_duration())), steps.drop_first(), name);
    } else {
        lemma_accum_adds(t, steps.drop_first(), i - 1, name);
    }
}

/// The history that a sequence of successful runs leaves for one step name,
/// each run's steps folded in, in order.
pub open spec fn totals_after_runs(runs: Seq<Seq<StepData>>, name: Seq<char>) -> Option<u64>
    decreases runs.len(),
{
    if runs.len() == 0 {
        None
    } else {
        accum(totals_after_runs(runs.drop_last(), name), runs.last(), name)
    }
}

/// The sum of a sequence of durations.
pub open spec fn spec_sum(ds: Seq<u64>) -> int
    decreases ds.len(),
{
    if ds.len() == 0 {
        0
    } else {
        spec_sum(ds.drop_last()) + ds.last()
    }
}

pub proof fn lemma_sum_nonneg(ds: Seq<u64>)
    ensures
        spec_sum(ds) >= 0,
    decreases ds.len(),
{
    if ds.len() > 0 {
        lemma_sum_nonneg(ds.drop_last());
    }
}

/// The sum of a prefix of non-negative durations never exceeds the sum of
/// them all.
pub proof fn lemma_sum_prefix(ds: Seq<u64>, m: int)
    requires
        0 <= m <= ds.len(),
    ensures
        0 <= spec_sum(ds.take(m)) <= spec_sum(ds),
    decreases ds.len() - m,
{
    if m == ds.len() {
        assert(ds.take(m) =~= ds);
        lemma_sum_nonneg(ds);
    } else {
        lemma_sum_prefix(ds, m + 1);
        assert(ds.take(m + 1).drop_last() =~= ds.take(m));
        assert(ds.take(m + 1).last() == ds[m]);
        lemma_sum_nonneg(ds.take(m));
    }
}

proof fn lemma_average_over_runs_prefix(
    runs: Seq<Seq<StepData>>,
    pos: Seq<int>,
    ds: Seq<u64>,
    name: Seq<char>,
    k: int,
)
    requires
        runs.len() == pos.len(),
        runs.len() == ds.len(),
        1 <= k <= runs.len(),
        forall|i: int| 0 <= i < runs.len() ==> 0 <= #[trigger] pos[i],
        forall|i: int| 0 <= i < runs.len() ==> pos[i] < (#[trigger] runs[i]).len(),
        forall|i: int| 0 <= i < runs.len() ==> (#[trigger] runs[i])[pos[i]].name@ == name,
        forall|i: int|
            0 <= i < runs.len() ==> (#[trigger] runs[i])[pos[i]].spec_duration() == ds[i],
        forall|i: int, j: int|
            0 <= i < runs.len() && 0 <= j < runs[i].len() && j != pos[i] ==> (
            #[trigger] runs[i][j]).name@ != name,
        spec_sum(ds) <= u64::MAX,
    ensures
        totals_after_runs(runs.take(k), name) == Some(spec_sum(ds.take(k)) as u64),
    decreases k,
{
    assert(runs.take(k).drop_last() =~= runs.take(k - 1));
    assert(runs.take(k).last() == runs[k - 1]);
    assert(ds.take(k).drop_last() =~= ds.take(k - 1));
    assert(ds.take(k).last() == ds[k - 1]);
    assert(0 <= pos[k - 1] < runs[k - 1].len());
    lemma_sum_prefix(ds, k);
    lemma_sum_prefix(ds, k - 1);
    if k == 1 {
        assert(runs.take(0) =~= Seq::<Seq<StepData>>::empty());
        assert(ds.take(0) =~= Seq::<u64>::empty());
        assert(totals_after_runs(Seq::<Seq<StepData>>::empty(), name) is None);
        assert(spec_sum(Seq::<u64>::empty()) == 0);
        lemma_accum_first_run(runs[0], pos[0], name);
        assert(spec_sum(ds.take(1)) == ds[0]);
    } else {
        lemma_average_over_runs_prefix(runs, pos, ds, name, k - 1);
        lemma_sum_prefix(ds.take(k), k - 1);
        assert(ds.take(k).take(k - 1) =~= ds.take(k - 1));
        lemma_accum_adds((spec_sum(ds.take(k - 1)) as u64), runs[k - 1], pos[k - 1], name);
        assert(spec_sum(ds.take(k)) == spec_sum(ds.take(k - 1)) + ds[k - 1]);
    }
}

/// After any number of successful runs whose step of a given name lasted
/// `ds[0]`, `ds[1]`, ... in turn, the recorded total for that name is
/// exactly their sum, while it fits; the reported average is then the floor
/// of that sum over the number of passing runs.
pub proof fn lemma_average_over_runs(
    runs: Seq<Seq<StepData>>,
    pos: Seq<int>,
    ds: Seq<u64>,
    name: Seq<char>,
)
    requires
        runs.len() == pos.len(),
        runs.len() == ds.len(),
        runs.len() >= 1,
        runs.len() <= u64::MAX,
        forall|i: int| 0 <= i < runs.len() ==> 0 <= #[trigger] pos[i],
        forall|i: int| 0 <= i < runs.len() ==> pos[i] < (#[trigger] runs[i]).len(),
        forall|i: int| 0 <= i < runs.len() ==> (#[trigger] runs[i])[pos[i]].name@ == name,
        forall|i: int|
            0 <= i < runs.len() ==> (#[trigger] runs[i])[pos[i]].spec_duration() == ds[i],
        forall|i: int, j: int|
            0 <= i < runs.len() && 0 <= j < runs[i].len() && j != pos[i] ==> (
            #[trigger] runs[i][j]).name@ != name,
        spec_sum(ds) <= u64::MAX,
    ensures
        totals_after_runs(runs, name) == Some(spec_sum(ds) as u64),
        spec_avg(spec_sum(ds) as u64, runs.len() as u64) == spec_sum(ds) / runs.len() as int,
{
    lemma_average_over_runs_prefix(runs, pos, ds, name, runs.len() as int);
    assert(runs.take(runs.len() as int) =~= runs);
    assert(ds.take(ds.len() as int) =~= ds);
    lemma_sum_nonneg(ds);
}

/// The aggregator's state: run totals and the per-step-name history.
pub struct Context {
    pub pass_total: u64,
    pub fail_total: u64,
    pub history: Vec<HistoricalData>,
}

/// The reported rolling average: the accumulated total divided by the
/// number of passing runs, in integer arithmetic, with a floor of one run.
pub open spec fn spec_avg(total: u64, pass: u64) -> u64 {
    (total as int / (if pass == 0 {
        1int
    } else {
        pass as int
    })) as u64
}

/// The reported pass ratio: passes per hundred runs, in integer arithmetic;
/// with no runs at all the ratio is zero, not a division fault.
pub open spec fn spec_ratio(pass: u64, fail: u64) -> int {
    pass * 100 / (if pass + fail == 0 {
        1int
    } else {
        pass + fail
    })
}

/// Find the entry that carries `name`, scanning in order.
fn find_entry(history: &Vec<HistoricalData>, name: &String) -> (r: Option<usize>)
    ensures
        match r {
            Some(k) => {
                &&& (k as int) < history@.len()
                &&& history@[k as int].name@ == name@
                &&& forall|j: int| 0 <= j < k ==> (#[trigger] history@[j]).name@ != name@
                &&& hist_total(history@, name@) == Some(history@[k as int].time_total)
            },
            None => hist_total(history@, name@) is None,
        },
{
    let n = history.len();
    proof {
        assert(history@.skip(0) =~= history@);
    }
    let mut k: usize = 0;
    while k < n
        invariant
            k <= n,
            n == history@.len(),
            forall|j: int| 0 <= j < k ==> (#[trigger] history@[j]).name@ != name@,
            hist_total(history@, name@) == hist_total(history@.skip(k as int), name@),
        decreases n - k,
    {
        proof {
            assert(history@.skip(k as int).drop_first() =~= history@.skip(k as int + 1));
            assert(history@.skip(k as int)[0] == history@[k as int]);
        }
        if history[k].name == *name {
            return Some(k);
        }
        k += 1;
    }
    proof {
        assert(history@.skip(n as int) =~= Seq::<HistoricalData>::empty());
    }
    None
}

impl Context {
    /// Well-formedness: one history entry per step name.
    pub open spec fn wf(self) -> bool {
        distinct_names(self.history@)
    }

    pub fn new() -> (r: Context)
        ensures
            r.pass_total == 0,
            r.fail_total == 0,
            r.history@.len() == 0,
            r.wf(),
    {
        Context { pass_total: 0, fail_total: 0, history: Vec::new() }
    }

    /// Fold one finalized outcome into the statistics: count it, and on a
    /// success add every step's duration to the record of its name.
    pub fn update(&mut self, event: &ExecutorEvent)
        requires
            old(self).wf(),
            event.wf(),
            old(self).pass_total < u64::MAX,
            old(self).fail_total < u64::MAX,
        ensures
            final(self).wf(),
            final(self).pass_total == (if event.is_success() {
                old(self).pass_total + 1
            } else {
                old(self).pass_total as int
            }),
            final(self).fail_total == (if event.is_success() {
                old(self).fail_total as int
            } else {
                old(self).fail_total + 1
            }),
            event.is_success() ==> forall|n: Seq<char>|
                #[trigger] hist_total(final(self).history@, n) == accum(
                    hist_total(old(self).history@, n),
                    event.steps(),
                    n,
                ),
            !event.is_success() ==> final(self).history@ == old(self).history@,
    {
        match event {
            ExecutorEvent::Fail(_, _) => {
                self.fail_total = self.fail_total + 1;
            },
            ExecutorEvent::Success(_, steps) => {
                self.pass_total = self.pass_total + 1;
                let m = steps.len();
                proof {
                    assert(event.steps() == steps@);
                    assert(steps@.skip(0) =~= steps@);
                }
                let mut s_i: usize = 0;
                while s_i < m
                    invariant
                        s_i <= m,
                        m == steps@.len(),
                        forall|q: int| 0 <= q < steps@.len() ==> (#[trigger] steps@[q]).wf(),
                        distinct_names(self.history@),
                        self.pass_total == old(self).pass_total + 1,
                        self.fail_total == old(self).fail_total,
                        forall|n: Seq<char>|
                            #[trigger] accum(
                                hist_total(self.history@, n),
                                steps@.skip(s_i as int),
                                n,
                            ) == accum(hist_total(old(self).history@, n), steps@, n),
                    decreases m - s_i,
                {
                    let ghost pre = self.history@;
                    let step = &steps[s_i];
                    let dur = step.get_duration();
                    proof {
                        assert(steps@.skip(s_i as int).drop_first() =~= steps@.skip(s_i as int + 1));
                        assert(steps@.skip(s_i as int)[0] == steps@[s_i as int]);
                    }
                    match find_entry(&self.history, &step.name) {
                        Some(k) => {
                            let cur = self.history[k].time_total;
                            let newtotal = if cur > u64::MAX - dur {
                                u64::MAX
                            } else {
                                cur + dur
                            };
                            self.history[k].time_total = newtotal;
                            proof {
                                assert(self.history@ == pre.update(
                                    k as int,
                                    self.history@[k as int],
                                ));
                                assert(self.history@[k as int].name@ == step.name@);
                                assert(newtotal == sat_add(cur, dur));
                                assert forall|n: Seq<char>|
                                    #[trigger] hist_total(self.history@, n) == (if n == step.name@ {
                                        Some(sat_add(cur, dur))
                                    } else {
                                        hist_total(pre, n)
                                    }) by {
                                    lemma_hist_total_update(
                                        pre,
                                        k as int,
                                        self.history@[k as int],
                                        n,
                                    );
                                }
                                assert(distinct_names(self.history@));
                            }
                        },
                        None => {
                            let entry = HistoricalData { name: step.name.clone(), time_total: dur };
                            proof {
                                lemma_hist_total_none(pre, step.name@);
                            }
                            self.history.push(entry);
                            proof {
                                assert(entry.name@ == step.name@);
                                assert forall|n: Seq<char>|
                                    #[trigger] hist_total(self.history@, n) == (if n == step.name@ {
                                        Some(dur)
                                    } else {
                                        hist_total(pre, n)
                                    }) by {
                                    lemma_hist_total_push(pre, entry, n);
                                    if n == step.name@ {
                                        assert(hist_total(pre, n) is None);
                                    }
                                }
                                assert forall|i: int, j: int|
                                    0 <= i < j < self.history@.len() implies (
                                #[trigger] self.history@[i]).name@ != (
                                #[trigger] self.history@[j]).name@ by {
                                    if j < pre.len() {
                                        assert(pre[i].name@ != pre[j].name@);
                                    } else {
                                        assert(self.history@[j] == entry);
                                        assert(pre[i].name@ != step.name@);
                                    }
                                }
                            }
                        },
                    }
                    proof {
                        let stepv = steps@[s_i as int];
                        assert forall|n: Seq<char>|
                            #[trigger] accum(
                                hist_total(self.history@, n),
                                steps@.skip(s_i as int + 1),
                                n,
                            ) == accum(hist_total(old(self).history@, n), steps@, n) by {
                            assert(accum(hist_total(pre, n), steps@.skip(s_i as int), n) == accum(
                                hist_total(old(self).history@, n),
                                steps@,
                                n,
                            ));
                            if n == stepv.name@ {
                                assert(hist_total(self.history@, n) == (match hist_total(pre, n) {
                                    Some(t) => Some(sat_add(t, stepv.spec_duration())),
                                    None => Some(stepv.spec_duration()),
                                }));
                            } else {
                                assert(hist_total(self.history@, n) == hist_total(pre, n));
                            }
                        }
                    }
                    s_i += 1;
                }
                proof {
                    assert(steps@.skip(m as int) =~= Seq::<StepData>::empty());
                    assert forall|n: Seq<char>|
                        #[trigger] hist_total(self.history@, n) == accum(
                            hist_total(old(self).history@, n),
                            event.steps(),
                            n,
                        ) by {
                        assert(accum(hist_total(self.history@, n), steps@.skip(m as int), n)
                            == accum(hist_total(old(self).history@, n), steps@, n));
                    }
                }
            },
        }
    }

    /// The rolling average duration recorded for a step name, if any.
    pub fn get_duration_avg(&self, name: &str) -> (r: Option<u64>)
        ensures
            r == (match hist_total(self.history@, name@) {
                Some(t) => Some(spec_avg(t, self.pass_total)),
                None => None::<u64>,
            }),
    {
        let key = name.to_owned();
        match find_entry(&self.history, &key) {
            Some(k) => {
                let total = if self.pass_total == 0 {
                    1
                } else {
                    self.pass_total
                };
                Some(self.history[k].time_total / total)
            },
            None => None,
        }
    }

    /// The overall pass ratio, in percent.
    pub fn get_ratio(&self) -> (r: u64)
        requires
            self.pass_total <= u64::MAX / 100,
            self.pass_total + self.fail_total <= u64::MAX,
        ensures
            r == spec_ratio(self.pass_total, self.fail_total),
            self.pass_total == 0 && self.fail_total == 0 ==> r == 0,
    {
        let sum = self.pass_total + self.fail_total;
        let total = if sum == 0 {
            1
        } else {
            sum
        };
        self.pass_total * 100 / total
    }
}

/// After a single successful run the reported average equals that run's
/// recorded duration exactly.
pub proof fn lemma_single_run_average(ctx: Context, name: Seq<char>, d: u64)
    requires
        ctx.pass_total == 1,
        hist_total(ctx.history@, name) == Some(d),
    ensures
        spec_avg(d, ctx.pass_total) == d,
{
    assert(d as int / 1int == d as int);
}

/// The status word a report shows for a verdict.
pub fn status_as_str(status: bool) -> (r: &'static str)
    ensures
        status ==> r@ == "done"@,
        !status ==> r@ == "failed"@,
{
    match status {
        true => "done",
        false => "failed",
    }
}

/// The notification icon for a verdict.
pub fn get_icon_name(status: bool) -> (r: &'static str)
    ensures
        status ==> r@ == "emblem-checked"@,
        !status ==> r@ == "emblem-error"@,
{
    if status {
        "emblem-checked"
    } else {
        "emblem-error"
    }
}

/// The colour a rendered value gets.
#[derive(Clone, Copy, Debug, PartialEq, Eq, Structural)]
pub enum ColorClass {
    Red,
    Yellow,
    Green,
}

/// The colour of the status word: green for done, red for failed.
pub fn status_color(status: bool) -> (r: ColorClass)
    ensures
        r == (if status {
            ColorClass::Green
        } else {
            ColorClass::Red
        }),
{
    if status {
        ColorClass::Green
    } else {
        ColorClass::Red
    }
}

/// The colour of the pass ratio: red below half, yellow below eighty,
/// green up to one hundred; a ratio beyond that is invalid.
pub fn ratio_color(ratio: u64) -> (r: Option<ColorClass>)
    ensures
        ratio <= 49 ==> r == Some(ColorClass::Red),
        50 <= ratio <= 79 ==> r == Some(ColorClass::Yellow),
        80 <= ratio <= 100 ==> r == Some(ColorClass::Green),
        ratio > 100 ==> r is None,
{
    if ratio <= 49 {
        Some(ColorClass::Red)
    } else if ratio <= 79 {
        Some(ColorClass::Yellow)
    } else if ratio <= 100 {
        Some(ColorClass::Green)
    } else {
        None
    }
}

/// The colour of a duration delta: green when not above average, yellow
/// otherwise.
pub fn diff_color(diff: i64) -> (r: ColorClass)
    ensures
        r == (if diff <= 0 {
            ColorClass::Green
        } else {
            ColorClass::Yellow
        }),
{
    if diff <= 0 {
        ColorClass::Green
    } else {
        ColorClass::Yellow
    }
}

/// The signed difference between a step's duration and its average, in
/// milliseconds.
pub fn duration_diff_as_millis(current: u64, expect: u64) -> (r: i64)
    requires
        current <= i64::MAX as u64,
        expect <= i64::MAX as u64,
    ensures
        r == current - expect,
{
    if current > expect {
        (current - expect) as i64
    } else {
        -((expect - current) as i64)
    }
}

/// The total duration of a run's steps, in milliseconds, saturating at the
/// largest representable total.
pub open spec fn spec_total_duration(s: Seq<StepData>) -> u64
    decreases s.len(),
{
    if s.len() == 0 {
        0
    } else {
        sat_add(spec_total_duration(s.drop_last()), s.last().spec_duration())
    }
}

/// The elapsed time a notification reports for a run.
pub fn total_duration(steps: &Vec<StepData>) -> (r: u64)
    requires
        forall|q: int| 0 <= q < steps@.len() ==> (#[trigger] steps@[q]).wf(),
    ensures
        r == spec_total_duration(steps@),
{
    let n = steps.len();
    let mut total: u64 = 0;
    let mut i: usize = 0;
    proof {
        assert(steps@.take(0) =~= Seq::<StepData>::empty());
    }
    while i < n
        invariant
            i <= n,
            n == steps@.len(),
            forall|q: int| 0 <= q < steps@.len() ==> (#[trigger] steps@[q]).wf(),
            total == spec_total_duration(steps@.take(i as int)),
        decreases n - i,
    {
        let dur = steps[i].get_duration();
        proof {
            assert(steps@.take(i as int + 1).drop_last() =~= steps@.take(i as int));
            assert(steps@.take(i as int + 1).last() == steps@[i as int]);
        }
        total = if total > u64::MAX - dur {
            u64::MAX
        } else {
            total + dur
        };
        i += 1;
    }
    proof {
        assert(steps@.take(n as int) =~= steps@);
    }
    total
}

} // verus!
