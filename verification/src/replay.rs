//! Deterministic replay.
//!
//! A scenario's timeline fixes the instants at which every emitter fires, and
//! its scripted operator feedback is interleaved with those emissions by time.
//! Everything here is a function of the scenario alone, so two runs of one
//! scenario apply the same events in the same order.

use vstd::prelude::*;
use vstd::string::*;

use crate::engine::{FusionConfig, FusionOutcome};
use crate::error::FabricError;
use crate::ids::SessionId;
use crate::model::{Magnitude, Observation, ReplaySession, ReplayStatus, SCHEMA_VERSION};
use crate::time::Timestamp;

verus! {

/// The value a scenario's `deterministic` flag takes when it is omitted.
pub fn default_true() -> (b: bool)
    ensures
        b,
{
    true
}

/// The replay clock: emitters fire at `start_ms`, then every `step_ms`, up to
/// and including `end_ms`. A step below one millisecond counts as one.
#[derive(Debug, Clone, Copy, PartialEq, Eq, Structural)]
pub struct Timeline {
    pub start_ms: i64,
    pub end_ms: i64,
    pub step_ms: i64,
}

/// The step actually taken: `step_ms`, but at least one millisecond.
pub open spec fn effective_step(step_ms: i64) -> int {
    if step_ms < 1 {
        1
    } else {
        step_ms as int
    }
}

/// The instants `t`, `t + step`, `t + 2·step`, … that do not pass `end`.
pub open spec fn ticks_from(t: int, end: int, step: int) -> Seq<int>
    decreases (if t > end {
        0
    } else {
        end - t + 1
    }),
{
    if t > end || step < 1 {
        Seq::empty()
    } else {
        seq![t] + ticks_from(t + step, end, step)
    }
}

impl Timeline {
    /// The instants at which the emitters fire.
    pub open spec fn tick_times(self) -> Seq<int> {
        ticks_from(self.start_ms as int, self.end_ms as int, effective_step(self.step_ms))
    }

    /// Stepping past each instant stays within `i64`.
    pub open spec fn advances_fit(self) -> bool {
        forall|k: int|
            0 <= k < self.tick_times().len() ==> #[trigger] self.tick_times()[k] + effective_step(
                self.step_ms,
            ) <= i64::MAX
    }

    /// The firing instants, in order.
    pub fn ticks(&self) -> (ticks: Vec<i64>)
        requires
            self.advances_fit(),
        ensures
            ticks@.map_values(|t: i64| t as int) == self.tick_times(),
    {
        let step: i64 = if self.step_ms < 1 {
            1
        } else {
            self.step_ms
        };
        let ghost all = self.tick_times();
        let mut out: Vec<i64> = Vec::new();
        let mut t: i64 = self.start_ms;
        while t <= self.end_ms
            invariant
                step as int == effective_step(self.step_ms),
                step >= 1,
                self.advances_fit(),
                all == self.tick_times(),
                out@.map_values(|x: i64| x as int) + ticks_from(t as int, self.end_ms as int, step as int)
                    == all,
            decreases (if t > self.end_ms {
                0
            } else {
                self.end_ms - t + 1
            }),
        {
            let ghost before = out@.map_values(|x: i64| x as int);
            let ghost told = t as int;
            proof {
                assert(ticks_from(told, self.end_ms as int, step as int) == seq![told] + ticks_from(
                    told + step,
                    self.end_ms as int,
                    step as int,
                ));
                assert(all[before.len() as int] == told);
                assert(all[before.len() as int] + effective_step(self.step_ms) <= i64::MAX);
            }
            out.push(t);
            t = t + step;
            proof {
                assert(out@.map_values(|x: i64| x as int) =~= before.push(told));
                assert(before.push(told) + ticks_from(t as int, self.end_ms as int, step as int) =~= before
                    + (seq![told] + ticks_from(told + step, self.end_ms as int, step as int)));
            }
        }
        assert(ticks_from(t as int, self.end_ms as int, step as int) =~= Seq::<int>::empty());
        assert(out@.map_values(|x: i64| x as int) =~= all);
        out
    }
}

/// The kind of synthetic emitter a scenario scripts.
#[derive(Debug, Clone, Copy, PartialEq, Eq, Structural)]
pub enum EmitterKind {
    Radar,
    Eoir,
    EwSigint,
    Platform,
}

/// One scripted replay event.
#[derive(Debug, Clone, Copy, PartialEq, Eq, Structural)]
pub enum ReplayStep {
    /// Emitter number `emitter` fires at `at_ms`.
    Emit { at_ms: i64, emitter: usize },
    /// The scenario's feedback entry number `index` is applied.
    Feedback { index: usize },
}

/// `i` placed into `order` after every entry whose time does not follow its own.
pub open spec fn insert_by_time(order: Seq<usize>, i: usize, times: Seq<i64>) -> Seq<usize>
    decreases order.len(),
{
    if order.len() == 0 {
        seq![i]
    } else if times[order.last() as int] <= times[i as int] {
        order.push(i)
    } else {
        insert_by_time(order.drop_last(), i, times).push(order.last())
    }
}

/// The indices `0..n`, stably sorted by `times`: earlier first, and entries
/// of equal time in index order.
pub open spec fn order_by_time(times: Seq<i64>, n: nat) -> Seq<usize>
    decreases n,
{
    if n == 0 {
        Seq::empty()
    } else {
        insert_by_time(order_by_time(times, (n - 1) as nat), (n - 1) as usize, times)
    }
}

proof fn lemma_insert_by_time_at(order: Seq<usize>, i: usize, times: Seq<i64>, k: int)
    requires
        0 <= k <= order.len(),
        forall|m: int| k <= m < order.len() ==> times[#[trigger] order[m] as int] > times[i as int],
        k > 0 ==> times[order[k - 1] as int] <= times[i as int],
    ensures
        insert_by_time(order, i, times) == order.insert(k, i),
    decreases order.len(),
{
    if order.len() == 0 {
        assert(order.insert(k, i) =~= seq![i]);
    } else if k == order.len() {
        assert(order.insert(k, i) =~= order.push(i));
    } else {
        assert(times[order[order.len() - 1] as int] > times[i as int]);
        lemma_insert_by_time_at(order.drop_last(), i, times, k);
        assert(order.insert(k, i) =~= order.drop_last().insert(k, i).push(order.last()));
    }
}

/// The order in which scripted feedback entries are applied: by time, and
/// entries of equal time in scenario order.
pub fn feedback_order(times: &Vec<i64>) -> (order: Vec<usize>)
    ensures
        order@ == order_by_time(times@, times@.len()),
        forall|m: int| 0 <= m < order@.len() ==> #[trigger] order@[m] < times@.len(),
{
    let n = times.len();
    let mut out: Vec<usize> = Vec::new();
    let mut i: usize = 0;
    while i < n
        invariant
            n == times@.len(),
            i <= n,
            out@ == order_by_time(times@, i as nat),
            forall|m: int| 0 <= m < out@.len() ==> #[trigger] out@[m] < i,
        decreases n - i,
    {
        let len = out.len();
        let mut k: usize = len;
        while k > 0 && times[out[k - 1]] > times[i]
            invariant
                k <= len,
                len == out@.len(),
                i < n,
                n == times@.len(),
                forall|m: int| 0 <= m < out@.len() ==> #[trigger] out@[m] < i,
                forall|m: int| k <= m < len ==> times@[#[trigger] out@[m] as int] > times@[i as int],
            decreases k,
        {
            k = k - 1;
        }
        proof {
            lemma_insert_by_time_at(out@, i, times@, k as int);
        }
        let ghost prev = out@;
        out.insert(k, i);
        proof {
            assert(out@ == prev.insert(k as int, i));
            assert forall|m: int| 0 <= m < out@.len() implies #[trigger] out@[m] < i + 1 by {
                if m < k {
                    assert(out@[m] == prev[m]);
                } else if m > k {
                    assert(out@[m] == prev[m - 1]);
                }
            }
        }
        i = i + 1;
    }
    out
}

/// The emissions in firing order: instant by instant, and at each instant
/// the emitters in scenario order.
pub open spec fn emissions(ticks: Seq<i64>, emitters: nat) -> Seq<ReplayStep>
    decreases ticks.len(),
{
    if ticks.len() == 0 {
        Seq::empty()
    } else {
        emissions(ticks.drop_last(), emitters) + Seq::new(
            emitters,
            |e: int| ReplayStep::Emit { at_ms: ticks.last(), emitter: e as usize },
        )
    }
}

/// The instant of an emission (zero for a feedback entry).
pub open spec fn step_time(s: ReplayStep) -> i64 {
    match s {
        ReplayStep::Emit { at_ms, .. } => at_ms,
        ReplayStep::Feedback { .. } => 0,
    }
}

/// Emissions and feedback interleaved by time; at equal times the
/// emissions come first.
pub open spec fn merge_steps(emits: Seq<ReplayStep>, order: Seq<usize>, times: Seq<i64>) -> Seq<ReplayStep>
    decreases emits.len() + order.len(),
{
    if emits.len() == 0 {
        order.map_values(|i: usize| ReplayStep::Feedback { index: i })
    } else if order.len() == 0 {
        emits
    } else if step_time(emits[0]) <= times[order[0] as int] {
        seq![emits[0]] + merge_steps(emits.drop_first(), order, times)
    } else {
        seq![ReplayStep::Feedback { index: order[0] }] + merge_steps(emits, order.drop_first(), times)
    }
}

/// Every event of a replay, in the order it is applied.
pub open spec fn replay_order(timeline: Timeline, emitters: nat, feedback_times: Seq<i64>) -> Seq<ReplayStep> {
    merge_steps(
        emissions(timeline.tick_times().map_values(|t: int| t as i64), emitters),
        order_by_time(feedback_times, feedback_times.len()),
        feedback_times,
    )
}

/// The instant an event happens at: an emission's own instant, or the
/// scripted time of a feedback entry.
pub open spec fn event_time(s: ReplayStep, feedback_times: Seq<i64>) -> int {
    match s {
        ReplayStep::Emit { at_ms, .. } => at_ms as int,
        ReplayStep::Feedback { index } => feedback_times[index as int] as int,
    }
}

/// Events are in time order.
pub open spec fn time_ordered(steps: Seq<ReplayStep>, feedback_times: Seq<i64>) -> bool {
    forall|i: int, j: int|
        0 <= i < j < steps.len() ==> event_time(steps[i], feedback_times) <= event_time(
            steps[j],
            feedback_times,
        )
}

/// Selects the emissions of a schedule.
pub open spec fn is_emit() -> spec_fn(ReplayStep) -> bool {
    |s: ReplayStep| s is Emit
}

/// Selects the feedback entries of a schedule.
pub open spec fn is_feedback() -> spec_fn(ReplayStep) -> bool {
    |s: ReplayStep| s is Feedback
}

proof fn lemma_filter_all<A>(s: Seq<A>, p: spec_fn(A) -> bool)
    requires
        forall|k: int| 0 <= k < s.len() ==> p(#[trigger] s[k]),
    ensures
        s.filter(p) == s,
    decreases s.len(),
{
    reveal(Seq::filter);
    if s.len() > 0 {
        lemma_filter_all(s.drop_last(), p);
        assert(s.drop_last().push(s.last()) =~= s);
    }
}

proof fn lemma_filter_none<A>(s: Seq<A>, p: spec_fn(A) -> bool)
    requires
        forall|k: int| 0 <= k < s.len() ==> !p(#[trigger] s[k]),
    ensures
        s.filter(p) == Seq::<A>::empty(),
    decreases s.len(),
{
    reveal(Seq::filter);
    if s.len() > 0 {
        lemma_filter_none(s.drop_last(), p);
    }
}

/// The instants of a timeline are increasing and lie between its start
/// and end.
proof fn lemma_ticks_increasing(t: int, end: int, step: int)
    requires
        step >= 1,
    ensures
        forall|k: int|
            0 <= k < ticks_from(t, end, step).len() ==> t <= #[trigger] ticks_from(t, end, step)[k] <= end,
        forall|i: int, j: int|
            0 <= i < j < ticks_from(t, end, step).len() ==> ticks_from(t, end, step)[i] < ticks_from(
                t,
                end,
                step,
            )[j],
    decreases (if t > end {
        0
    } else {
        end - t + 1
    }),
{
    if t <= end {
        lemma_ticks_increasing(t + step, end, step);
        let rest = ticks_from(t + step, end, step);
        let all = ticks_from(t, end, step);
        assert(all == seq![t] + rest);
        assert forall|k: int| 0 <= k < all.len() implies t <= #[trigger] all[k] <= end by {
            if k > 0 {
                assert(all[k] == rest[k - 1]);
            }
        }
        assert forall|i: int, j: int| 0 <= i < j < all.len() implies all[i] < all[j] by {
            assert(all[j] == rest[j - 1]);
            if i > 0 {
                assert(all[i] == rest[i - 1]);
            }
        }
    }
}

/// Emissions over increasing instants are all emissions, in time order, no
/// later than the last instant.
proof fn lemma_emissions_ordered(ticks: Seq<i64>, n: nat)
    requires
        forall|i: int, j: int| 0 <= i < j < ticks.len() ==> ticks[i] < ticks[j],
    ensures
        forall|k: int| 0 <= k < emissions(ticks, n).len() ==> (#[trigger] emissions(ticks, n)[k]) is Emit,
        forall|i: int, j: int|
            0 <= i < j < emissions(ticks, n).len() ==> step_time(emissions(ticks, n)[i]) <= step_time(
                emissions(ticks, n)[j],
            ),
        ticks.len() > 0 ==> forall|k: int|
            0 <= k < emissions(ticks, n).len() ==> step_time(#[trigger] emissions(ticks, n)[k]) <= ticks.last(),
    decreases ticks.len(),
{
    if ticks.len() > 0 {
        let front = ticks.drop_last();
        lemma_emissions_ordered(front, n);
        let e0 = emissions(front, n);
        let block = Seq::new(n, |e: int| ReplayStep::Emit { at_ms: ticks.last(), emitter: e as usize });
        let all = emissions(ticks, n);
        assert(all == e0 + block);
        if front.len() > 0 {
            assert(front.last() == ticks[ticks.len() - 2]);
        }
        assert forall|k: int| 0 <= k < all.len() implies (#[trigger] all[k]) is Emit && step_time(all[k])
            <= ticks.last() by {
            if k >= e0.len() {
                assert(all[k] == block[k - e0.len()]);
            } else {
                assert(all[k] == e0[k]);
            }
        }
        assert forall|i: int, j: int| 0 <= i < j < all.len() implies step_time(all[i]) <= step_time(all[j]) by {
            if j >= e0.len() {
                assert(all[j] == block[j - e0.len()]);
                if i >= e0.len() {
                    assert(all[i] == block[i - e0.len()]);
                } else {
                    assert(all[i] == e0[i]);
                }
            } else {
                assert(all[i] == e0[i]);
                assert(all[j] == e0[j]);
            }
        }
    }
}

/// Ordered by time.
pub open spec fn order_sorted(order: Seq<usize>, times: Seq<i64>) -> bool {
    forall|i: int, j: int| 0 <= i < j < order.len() ==> times[order[i] as int] <= times[order[j] as int]
}

/// Entries of equal time keep their scenario order.
pub open spec fn order_stable(order: Seq<usize>, times: Seq<i64>) -> bool {
    forall|i: int, j: int|
        0 <= i < j < order.len() && times[order[i] as int] == times[order[j] as int] ==> order[i] < order[j]
}

proof fn lemma_insert_by_time_props(s: Seq<usize>, i: usize, times: Seq<i64>)
    requires
        order_sorted(s, times),
        order_stable(s, times),
        forall|m: int| 0 <= m < s.len() ==> #[trigger] s[m] < i,
        i < times.len(),
    ensures
        order_sorted(insert_by_time(s, i, times), times),
        order_stable(insert_by_time(s, i, times), times),
        insert_by_time(s, i, times).to_multiset() == s.to_multiset().insert(i),
        insert_by_time(s, i, times).len() == s.len() + 1,
        forall|m: int| 0 <= m < insert_by_time(s, i, times).len() ==> #[trigger] insert_by_time(s, i, times)[m] <= i,
    decreases s.len(),
{
    broadcast use vstd::seq_lib::group_to_multiset_ensures;

    let r = insert_by_time(s, i, times);
    if s.len() == 0 {
        assert(seq![i] =~= Seq::<usize>::empty().push(i));
    } else if times[s.last() as int] <= times[i as int] {
        assert(r == s.push(i));
        assert forall|a: int, b: int| 0 <= a < b < r.len() implies times[r[a] as int] <= times[r[b] as int] by {
            if b == s.len() {
                assert(r[a] == s[a]);
                if a < s.len() - 1 {
                    assert(times[s[a] as int] <= times[s[s.len() - 1] as int]);
                }
            } else {
                assert(r[a] == s[a] && r[b] == s[b]);
            }
        }
        assert forall|a: int, b: int|
            0 <= a < b < r.len() && times[r[a] as int] == times[r[b] as int] implies r[a] < r[b] by {
            if b == s.len() {
                assert(r[a] == s[a]);
            } else {
                assert(r[a] == s[a] && r[b] == s[b]);
            }
        }
        assert forall|m: int| 0 <= m < r.len() implies #[trigger] r[m] <= i by {
            if m < s.len() {
                assert(r[m] == s[m]);
            }
        }
    } else {
        let front = s.drop_last();
        let last = s.last();
        assert(last == s[s.len() - 1]);
        assert(order_sorted(front, times)) by {
            assert forall|a: int, b: int| 0 <= a < b < front.len() implies times[front[a] as int]
                <= times[front[b] as int] by {
                assert(front[a] == s[a] && front[b] == s[b]);
            }
        }
        assert(order_stable(front, times)) by {
            assert forall|a: int, b: int|
                0 <= a < b < front.len() && times[front[a] as int] == times[front[b] as int] implies front[a]
                < front[b] by {
                assert(front[a] == s[a] && front[b] == s[b]);
            }
        }
        assert forall|m: int| 0 <= m < front.len() implies #[trigger] front[m] < i by {
            assert(front[m] == s[m]);
        }
        lemma_insert_by_time_props(front, i, times);
        let rest = insert_by_time(front, i, times);
        assert(r == rest.push(last));
        assert(s =~= front.push(last));
        // every element of `rest` is `i` or an element of `front`
        assert forall|k: int| 0 <= k < rest.len() implies rest[k] == i || (exists|m: int|
            0 <= m < front.len() && front[m] == #[trigger] rest[k]) by {
            assert(rest.to_multiset().count(rest[k]) > 0);
            if rest[k] != i {
                assert(front.to_multiset().count(rest[k]) > 0);
                assert(front.contains(rest[k]));
            }
        }
        assert forall|a: int, b: int| 0 <= a < b < r.len() implies times[r[a] as int] <= times[r[b] as int] by {
            if b == rest.len() {
                assert(r[a] == rest[a]);
                if rest[a] != i {
                    let m = choose|m: int| 0 <= m < front.len() && front[m] == rest[a];
                    assert(front[m] == s[m]);
                }
            } else {
                assert(r[a] == rest[a] && r[b] == rest[b]);
            }
        }
        assert forall|a: int, b: int|
            0 <= a < b < r.len() && times[r[a] as int] == times[r[b] as int] implies r[a] < r[b] by {
            if b == rest.len() {
                assert(r[a] == rest[a]);
                if rest[a] != i {
                    let m = choose|m: int| 0 <= m < front.len() && front[m] == rest[a];
                    assert(front[m] == s[m]);
                }
            } else {
                assert(r[a] == rest[a] && r[b] == rest[b]);
            }
        }
        assert forall|m: int| 0 <= m < r.len() implies #[trigger] r[m] <= i by {
            if m < rest.len() {
                assert(r[m] == rest[m]);
            } else {
                assert(r[m] == s[s.len() - 1]);
            }
        }
        assert(r.to_multiset() == rest.to_multiset().insert(last));
        assert(s.to_multiset() == front.to_multiset().insert(last));
    }
}

/// The feedback order is sorted by time, stable, and holds every entry
/// index exactly once.
proof fn lemma_order_by_time_props(times: Seq<i64>, n: nat)
    requires
        n <= times.len(),
        n <= usize::MAX,
    ensures
        order_sorted(order_by_time(times, n), times),
        order_stable(order_by_time(times, n), times),
        order_by_time(times, n).to_multiset() == Seq::new(n, |k: int| k as usize).to_multiset(),
        order_by_time(times, n).len() == n,
        forall|m: int| 0 <= m < order_by_time(times, n).len() ==> #[trigger] order_by_time(times, n)[m] < n,
    decreases n,
{
    broadcast use vstd::seq_lib::group_to_multiset_ensures;

    if n > 0 {
        let prev = order_by_time(times, (n - 1) as nat);
        lemma_order_by_time_props(times, (n - 1) as nat);
        lemma_insert_by_time_props(prev, (n - 1) as usize, times);
        assert(Seq::new(n, |k: int| k as usize) =~= Seq::new((n - 1) as nat, |k: int| k as usize).push(
            (n - 1) as usize,
        ));
    } else {
        assert(Seq::new(0, |k: int| k as usize) =~= Seq::<usize>::empty());
    }
}

/// Well-formed inputs of a merge: emissions in time order, feedback
/// entries in time order with valid indices.
pub open spec fn merge_inputs_ok(emits: Seq<ReplayStep>, order: Seq<usize>, times: Seq<i64>) -> bool {
    &&& forall|k: int| 0 <= k < emits.len() ==> (#[trigger] emits[k]) is Emit
    &&& forall|i: int, j: int| 0 <= i < j < emits.len() ==> step_time(emits[i]) <= step_time(emits[j])
    &&& order_sorted(order, times)
    &&& forall|k: int| 0 <= k < order.len() ==> #[trigger] order[k] < times.len()
}

/// The earliest instant among the heads of a merge's inputs.
pub open spec fn merge_floor(emits: Seq<ReplayStep>, order: Seq<usize>, times: Seq<i64>) -> int {
    if emits.len() == 0 {
        if order.len() > 0 {
            times[order[0] as int] as int
        } else {
            0
        }
    } else if order.len() > 0 && times[order[0] as int] < step_time(emits[0]) {
        times[order[0] as int] as int
    } else {
        step_time(emits[0]) as int
    }
}

/// At equal times, feedback never precedes an emission.
pub open spec fn feedback_before_emit_is_earlier(r: Seq<ReplayStep>, times: Seq<i64>) -> bool {
    forall|i: int, j: int|
        0 <= i < j < r.len() && r[i] is Feedback && r[j] is Emit ==> event_time(r[i], times) < event_time(
            r[j],
            times,
        )
}

/// What a merge `r` of `emits` and `order` satisfies.
pub open spec fn merge_facts(emits: Seq<ReplayStep>, order: Seq<usize>, times: Seq<i64>, r: Seq<ReplayStep>) -> bool {
    &&& time_ordered(r, times)
    &&& r.filter(is_emit()) == emits
    &&& r.filter(is_feedback()) == order.map_values(|i: usize| ReplayStep::Feedback { index: i })
    &&& feedback_before_emit_is_earlier(r, times)
    &&& forall|k: int| 0 <= k < r.len() ==> event_time(#[trigger] r[k], times) >= merge_floor(emits, order, times)
    &&& forall|k: int|
        0 <= k < r.len() && (#[trigger] r[k]) is Emit ==> emits.len() > 0 && event_time(r[k], times) >= step_time(
            emits[0],
        )
}

proof fn lemma_merge_no_emits(order: Seq<usize>, times: Seq<i64>)
    requires
        merge_inputs_ok(Seq::empty(), order, times),
    ensures
        merge_facts(Seq::empty(), order, times, merge_steps(Seq::empty(), order, times)),
{
    let emits = Seq::<ReplayStep>::empty();
    let r = merge_steps(emits, order, times);
    let fb = |i: usize| ReplayStep::Feedback { index: i };
    assert(r == order.map_values(fb));
    assert forall|k: int| 0 <= k < r.len() implies is_feedback()(#[trigger] r[k]) by {}
    lemma_filter_all(r, is_feedback());
    assert forall|k: int| 0 <= k < r.len() implies !is_emit()(#[trigger] r[k]) by {}
    lemma_filter_none(r, is_emit());
    assert forall|i: int, j: int| 0 <= i < j < r.len() implies event_time(r[i], times) <= event_time(r[j], times) by {
        assert(r[i] == fb(order[i]) && r[j] == fb(order[j]));
    }
    assert forall|k: int| 0 <= k < r.len() implies event_time(#[trigger] r[k], times) >= merge_floor(emits, order, times) by {
        assert(r[k] == fb(order[k]));
        if k > 0 {
            assert(times[order[0] as int] <= times[order[k] as int]);
        }
    }
}

proof fn lemma_merge_no_feedback(emits: Seq<ReplayStep>, times: Seq<i64>)
    requires
        merge_inputs_ok(emits, Seq::empty(), times),
        emits.len() > 0,
    ensures
        merge_facts(emits, Seq::empty(), times, merge_steps(emits, Seq::empty(), times)),
{
    let order = Seq::<usize>::empty();
    let r = merge_steps(emits, order, times);
    assert(r == emits);
    assert forall|k: int| 0 <= k < r.len() implies is_emit()(#[trigger] r[k]) by {}
    lemma_filter_all(r, is_emit());
    assert forall|k: int| 0 <= k < r.len() implies !is_feedback()(#[trigger] r[k]) by {}
    lemma_filter_none(r, is_feedback());
    assert(order.map_values(|i: usize| ReplayStep::Feedback { index: i }) =~= Seq::<ReplayStep>::empty());
    assert forall|k: int| 0 <= k < r.len() implies event_time(#[trigger] r[k], times) >= step_time(emits[0]) by {
        if k > 0 {
            assert(step_time(emits[0]) <= step_time(emits[k]));
        }
    }
}

proof fn lemma_merge_emit_first(emits: Seq<ReplayStep>, order: Seq<usize>, times: Seq<i64>)
    requires
        merge_inputs_ok(emits, order, times),
        emits.len() > 0,
        order.len() > 0,
        step_time(emits[0]) <= times[order[0] as int],
        merge_facts(emits.drop_first(), order, times, merge_steps(emits.drop_first(), order, times)),
    ensures
        merge_facts(emits, order, times, merge_steps(emits, order, times)),
{
    let rest_e = emits.drop_first();
    let tail = merge_steps(rest_e, order, times);
    let r = merge_steps(emits, order, times);
    let x = emits[0];
    assert(r == seq![x] + tail);
    tail.lemma_filter_prepend(x, is_emit());
    tail.lemma_filter_prepend(x, is_feedback());
    assert(seq![x] + rest_e =~= emits);
    assert(Seq::<ReplayStep>::empty() + tail.filter(is_feedback()) =~= tail.filter(is_feedback()));
    assert forall|k: int| 0 <= k < tail.len() implies event_time(#[trigger] tail[k], times) >= step_time(x) by {
        if rest_e.len() > 0 {
            assert(rest_e[0] == emits[1]);
            assert(step_time(emits[0]) <= step_time(emits[1]));
        }
    }
    assert forall|i: int, j: int| 0 <= i < j < r.len() implies event_time(r[i], times) <= event_time(r[j], times) by {
        assert(r[j] == tail[j - 1]);
        if i > 0 {
            assert(r[i] == tail[i - 1]);
        }
    }
    assert forall|i: int, j: int|
        0 <= i < j < r.len() && r[i] is Feedback && r[j] is Emit implies event_time(r[i], times) < event_time(
            r[j],
            times,
        ) by {
        assert(r[j] == tail[j - 1]);
        assert(r[i] == tail[i - 1]);
    }
    assert forall|k: int| 0 <= k < r.len() implies event_time(#[trigger] r[k], times) >= merge_floor(emits, order, times) by {
        if k > 0 {
            assert(r[k] == tail[k - 1]);
        }
    }
    assert forall|k: int| 0 <= k < r.len() && (#[trigger] r[k]) is Emit implies event_time(r[k], times) >= step_time(
        emits[0],
    ) by {
        if k > 0 {
            assert(r[k] == tail[k - 1]);
        }
    }
}

proof fn lemma_merge_feedback_first(emits: Seq<ReplayStep>, order: Seq<usize>, times: Seq<i64>)
    requires
        merge_inputs_ok(emits, order, times),
        emits.len() > 0,
        order.len() > 0,
        step_time(emits[0]) > times[order[0] as int],
        merge_facts(emits, order.drop_first(), times, merge_steps(emits, order.drop_first(), times)),
    ensures
        merge_facts(emits, order, times, merge_steps(emits, order, times)),
{
    let rest_o = order.drop_first();
    let tail = merge_steps(emits, rest_o, times);
    let r = merge_steps(emits, order, times);
    let x = ReplayStep::Feedback { index: order[0] };
    let fb = |i: usize| ReplayStep::Feedback { index: i };
    assert(r == seq![x] + tail);
    tail.lemma_filter_prepend(x, is_emit());
    tail.lemma_filter_prepend(x, is_feedback());
    assert(Seq::<ReplayStep>::empty() + tail.filter(is_emit()) =~= tail.filter(is_emit()));
    assert(order.map_values(fb) =~= seq![x] + rest_o.map_values(fb));
    let t0 = times[order[0] as int];
    assert forall|k: int| 0 <= k < tail.len() implies event_time(#[trigger] tail[k], times) >= t0 by {
        if rest_o.len() > 0 {
            assert(rest_o[0] == order[1]);
            assert(times[order[0] as int] <= times[order[1] as int]);
        }
    }
    assert forall|i: int, j: int| 0 <= i < j < r.len() implies event_time(r[i], times) <= event_time(r[j], times) by {
        assert(r[j] == tail[j - 1]);
        if i > 0 {
            assert(r[i] == tail[i - 1]);
        }
    }
    assert forall|i: int, j: int|
        0 <= i < j < r.len() && r[i] is Feedback && r[j] is Emit implies event_time(r[i], times) < event_time(
            r[j],
            times,
        ) by {
        assert(r[j] == tail[j - 1]);
        if i > 0 {
            assert(r[i] == tail[i - 1]);
        }
    }
    assert forall|k: int| 0 <= k < r.len() implies event_time(#[trigger] r[k], times) >= merge_floor(emits, order, times) by {
        if k > 0 {
            assert(r[k] == tail[k - 1]);
        }
    }
    assert forall|k: int| 0 <= k < r.len() && (#[trigger] r[k]) is Emit implies event_time(r[k], times) >= step_time(
        emits[0],
    ) by {
        assert(k > 0);
        assert(r[k] == tail[k - 1]);
    }
}

/// Merging time-ordered emissions with time-ordered feedback keeps the time
/// order, keeps each side's own order, and puts emissions before feedback
/// of the same instant.
proof fn lemma_merge_props(emits: Seq<ReplayStep>, order: Seq<usize>, times: Seq<i64>)
    requires
        merge_inputs_ok(emits, order, times),
    ensures
        merge_facts(emits, order, times, merge_steps(emits, order, times)),
    decreases emits.len() + order.len(),
{
    if emits.len() == 0 {
        assert(emits =~= Seq::<ReplayStep>::empty());
        lemma_merge_no_emits(order, times);
    } else if order.len() == 0 {
        assert(order =~= Seq::<usize>::empty());
        lemma_merge_no_feedback(emits, times);
    } else if step_time(emits[0]) <= times[order[0] as int] {
        let rest_e = emits.drop_first();
        assert(merge_inputs_ok(rest_e, order, times)) by {
            assert forall|k: int| 0 <= k < rest_e.len() implies (#[trigger] rest_e[k]) is Emit by {
                assert(rest_e[k] == emits[k + 1]);
            }
            assert forall|i: int, j: int| 0 <= i < j < rest_e.len() implies step_time(rest_e[i]) <= step_time(
                rest_e[j],
            ) by {
                assert(rest_e[i] == emits[i + 1] && rest_e[j] == emits[j + 1]);
            }
        }
        lemma_merge_props(rest_e, order, times);
        lemma_merge_emit_first(emits, order, times);
    } else {
        let rest_o = order.drop_first();
        assert(merge_inputs_ok(emits, rest_o, times)) by {
            assert forall|i: int, j: int| 0 <= i < j < rest_o.len() implies times[rest_o[i] as int]
                <= times[rest_o[j] as int] by {
                assert(rest_o[i] == order[i + 1] && rest_o[j] == order[j + 1]);
            }
            assert forall|k: int| 0 <= k < rest_o.len() implies #[trigger] rest_o[k] < times.len() by {
                assert(rest_o[k] == order[k + 1]);
            }
        }
        lemma_merge_props(emits, rest_o, times);
        lemma_merge_feedback_first(emits, order, times);
    }
}

/// A replay applies its events in time order. Among them are the emissions
/// in firing order and every feedback entry exactly once, ordered by time
/// and, at equal times, in scenario order; at equal times emissions come
/// before feedback. This is the stable sort by time of the emissions
/// followed by the feedback entries.
pub proof fn lemma_replay_order_is_stable_time_order(timeline: Timeline, emitters: nat, feedback_times: Seq<i64>)
    requires
        feedback_times.len() <= usize::MAX,
    ensures
        time_ordered(replay_order(timeline, emitters, feedback_times), feedback_times),
        replay_order(timeline, emitters, feedback_times).filter(is_emit()) == emissions(
            timeline.tick_times().map_values(|t: int| t as i64),
            emitters,
        ),
        replay_order(timeline, emitters, feedback_times).filter(is_feedback()) == order_by_time(
            feedback_times,
            feedback_times.len(),
        ).map_values(|i: usize| ReplayStep::Feedback { index: i }),
        forall|i: int, j: int|
            0 <= i < j < replay_order(timeline, emitters, feedback_times).len() && replay_order(
                timeline,
                emitters,
                feedback_times,
            )[i] is Feedback && replay_order(timeline, emitters, feedback_times)[j] is Emit ==> event_time(
                replay_order(timeline, emitters, feedback_times)[i],
                feedback_times,
            ) < event_time(replay_order(timeline, emitters, feedback_times)[j], feedback_times),
        order_sorted(order_by_time(feedback_times, feedback_times.len()), feedback_times),
        order_stable(order_by_time(feedback_times, feedback_times.len()), feedback_times),
        order_by_time(feedback_times, feedback_times.len()).to_multiset() == Seq::new(
            feedback_times.len(),
            |k: int| k as usize,
        ).to_multiset(),
{
    let step = effective_step(timeline.step_ms);
    lemma_ticks_increasing(timeline.start_ms as int, timeline.end_ms as int, step);
    let ticks_int = timeline.tick_times();
    let ticks = ticks_int.map_values(|t: int| t as i64);
    assert forall|i: int, j: int| 0 <= i < j < ticks.len() implies ticks[i] < ticks[j] by {
        assert(timeline.start_ms <= ticks_int[i] <= timeline.end_ms);
        assert(timeline.start_ms <= ticks_int[j] <= timeline.end_ms);
    }
    lemma_emissions_ordered(ticks, emitters);
    lemma_order_by_time_props(feedback_times, feedback_times.len());
    lemma_merge_props(
        emissions(ticks, emitters),
        order_by_time(feedback_times, feedback_times.len()),
        feedback_times,
    );
}

/// Engine-config overrides of a scenario; an omitted field keeps the default.
#[derive(Debug, Clone, Copy)]
pub struct ConfigSpec {
    pub staleness_limit_ms: Option<i64>,
    pub freshness_horizon_ms: Option<i64>,
    pub confirm_min_sources: Option<usize>,
    pub confirm_min_observations: Option<usize>,
    pub default_calibration_score: Option<Magnitude>,
}

impl Default for ConfigSpec {
    fn default() -> (c: ConfigSpec)
        ensures
            c.staleness_limit_ms is None,
            c.freshness_horizon_ms is None,
            c.confirm_min_sources is None,
            c.confirm_min_observations is None,
            c.default_calibration_score is None,
    {
        ConfigSpec {
            staleness_limit_ms: None,
            freshness_horizon_ms: None,
            confirm_min_sources: None,
            confirm_min_observations: None,
            default_calibration_score: None,
        }
    }
}

/// `o`'s value, or `d` when it is omitted.
pub open spec fn or_else<T>(o: Option<T>, d: T) -> T {
    match o {
        Some(v) => v,
        None => d,
    }
}

impl ConfigSpec {
    /// `base` with every given override in place.
    pub fn apply(&self, base: FusionConfig) -> (c: FusionConfig)
        ensures
            c.staleness_limit_ms == or_else(self.staleness_limit_ms, base.staleness_limit_ms),
            c.freshness_horizon_ms == or_else(self.freshness_horizon_ms, base.freshness_horizon_ms),
            c.confirm_min_sources == or_else(self.confirm_min_sources, base.confirm_min_sources),
            c.confirm_min_observations == or_else(
                self.confirm_min_observations,
                base.confirm_min_observations,
            ),
            c.default_calibration_score == or_else(
                self.default_calibration_score,
                base.default_calibration_score,
            ),
            c.default_source_reliability == base.default_source_reliability,
    {
        let mut config = base;
        if let Some(v) = self.staleness_limit_ms {
            config.staleness_limit_ms = v;
        }
        if let Some(v) = self.freshness_horizon_ms {
            config.freshness_horizon_ms = v;
        }
        if let Some(v) = self.confirm_min_sources {
            config.confirm_min_sources = v;
        }
        if let Some(v) = self.confirm_min_observations {
            config.confirm_min_observations = v;
        }
        if let Some(v) = self.default_calibration_score {
            config.default_calibration_score = v;
        }
        config
    }
}

/// Runs scenarios through a fresh engine under fixed seeds.
#[derive(Debug, Clone, Copy)]
pub struct ReplayHarness;

impl Default for ReplayHarness {
    fn default() -> (h: ReplayHarness)
        ensures
            h == ReplayHarness,
    {
        ReplayHarness
    }
}

impl ReplayHarness {
    pub fn new() -> (h: ReplayHarness)
        ensures
            h == ReplayHarness,
    {
        ReplayHarness
    }

    /// The engine configuration of a run: the defaults under the scenario's
    /// overrides.
    pub fn engine_config(&self, spec: &ConfigSpec) -> (c: FusionConfig)
        ensures
            c.staleness_limit_ms == or_else(spec.staleness_limit_ms, 5_000),
            c.freshness_horizon_ms == or_else(spec.freshness_horizon_ms, 10_000),
            c.confirm_min_sources == or_else(spec.confirm_min_sources, 2),
            c.confirm_min_observations == or_else(spec.confirm_min_observations, 3),
            c.default_calibration_score == or_else(spec.default_calibration_score, Magnitude::zero()),
            c.default_source_reliability == Magnitude::half(),
    {
        spec.apply(FusionConfig::default())
    }

    /// Every event of a run in the order it is applied: each emitter fires
    /// at every instant of the timeline, and feedback entries are slotted in
    /// by time, after the emissions of the same instant.
    pub fn schedule(&self, timeline: &Timeline, emitters: usize, feedback_times: &Vec<i64>) -> (steps: Vec<
        ReplayStep,
    >)
        requires
            timeline.advances_fit(),
        ensures
            steps@ == replay_order(*timeline, emitters as nat, feedback_times@),
    {
        let ticks = timeline.ticks();
        let ghost tick_seq = ticks@;
        proof {
            assert(tick_seq =~= timeline.tick_times().map_values(|t: int| t as i64));
        }
        // The emissions, instant by instant.
        let mut emits: Vec<ReplayStep> = Vec::new();
        let mut i: usize = 0;
        while i < ticks.len()
            invariant
                i <= ticks@.len(),
                tick_seq == ticks@,
                emits@ == emissions(tick_seq.take(i as int), emitters as nat),
            decreases ticks@.len() - i,
        {
            let at = ticks[i];
            let ghost base = emits@;
            let mut e: usize = 0;
            while e < emitters
                invariant
                    e <= emitters,
                    emits@ == base + Seq::new(
                        e as nat,
                        |x: int| ReplayStep::Emit { at_ms: at, emitter: x as usize },
                    ),
                decreases emitters - e,
            {
                emits.push(ReplayStep::Emit { at_ms: at, emitter: e });
                e = e + 1;
                assert(emits@ =~= base + Seq::new(
                    e as nat,
                    |x: int| ReplayStep::Emit { at_ms: at, emitter: x as usize },
                ));
            }
            proof {
                assert(tick_seq.take(i + 1).drop_last() =~= tick_seq.take(i as int));
                assert(tick_seq.take(i + 1).last() == at);
            }
            i = i + 1;
        }
        assert(tick_seq.take(ticks@.len() as int) =~= tick_seq);
        let order = feedback_order(feedback_times);
        let ghost full = merge_steps(emits@, order@, feedback_times@);
        // Interleave by time; on a tie the emission goes first.
        let mut out: Vec<ReplayStep> = Vec::new();
        let mut a: usize = 0;
        let mut b: usize = 0;
        assert(emits@.skip(0) =~= emits@);
        assert(order@.skip(0) =~= order@);
        while a < emits.len() || b < order.len()
            invariant
                a <= emits@.len(),
                b <= order@.len(),
                forall|m: int| 0 <= m < order@.len() ==> #[trigger] order@[m] < feedback_times@.len(),
                full == merge_steps(emits@, order@, feedback_times@),
                out@ + merge_steps(emits@.skip(a as int), order@.skip(b as int), feedback_times@) == full,
            decreases emits@.len() - a + order@.len() - b,
        {
            let ghost es = emits@.skip(a as int);
            let ghost os = order@.skip(b as int);
            let ghost before = out@;
            let take_emit = if a >= emits.len() {
                false
            } else if b >= order.len() {
                true
            } else {
                let at = match emits[a] {
                    ReplayStep::Emit { at_ms, .. } => at_ms,
                    ReplayStep::Feedback { .. } => 0,
                };
                at <= feedback_times[order[b]]
            };
            if take_emit {
                let s = emits[a];
                out.push(s);
                a = a + 1;
                proof {
                    assert(es.drop_first() =~= emits@.skip(a as int));
                    if os.len() == 0 {
                        assert(merge_steps(es, os, feedback_times@) == es);
                        assert(es =~= seq![s] + es.drop_first());
                        assert(merge_steps(es.drop_first(), os, feedback_times@) == es.drop_first());
                    }
                    assert(merge_steps(es, os, feedback_times@) == seq![s] + merge_steps(
                        emits@.skip(a as int),
                        os,
                        feedback_times@,
                    ));
                    assert(out@ =~= before.push(s));
                    assert(out@ + merge_steps(emits@.skip(a as int), os, feedback_times@) =~= before
                        + merge_steps(es, os, feedback_times@));
                }
            } else {
                let idx = order[b];
                let s = ReplayStep::Feedback { index: idx };
                out.push(s);
                b = b + 1;
                proof {
                    assert(os.drop_first() =~= order@.skip(b as int));
                    if es.len() == 0 {
                        assert(merge_steps(es, os, feedback_times@) == os.map_values(
                            |i: usize| ReplayStep::Feedback { index: i },
                        ));
                        assert(merge_steps(es, os.drop_first(), feedback_times@) == os.drop_first().map_values(
                            |i: usize| ReplayStep::Feedback { index: i },
                        ));
                        assert(os.map_values(|i: usize| ReplayStep::Feedback { index: i }) =~= seq![s]
                            + os.drop_first().map_values(|i: usize| ReplayStep::Feedback { index: i }));
                    }
                    assert(merge_steps(es, os, feedback_times@) == seq![s] + merge_steps(
                        es,
                        order@.skip(b as int),
                        feedback_times@,
                    ));
                    assert(out@ =~= before.push(s));
                    assert(out@ + merge_steps(es, order@.skip(b as int), feedback_times@) =~= before
                        + merge_steps(es, os, feedback_times@));
                }
            }
        }
        proof {
            let es = emits@.skip(a as int);
            let os = order@.skip(b as int);
            assert(es.len() == 0 && os.len() == 0);
            assert(merge_steps(es, os, feedback_times@) =~= Seq::<ReplayStep>::empty());
            assert(out@ =~= full);
        }
        out
    }

    /// An emitted observation backdated by `lag_ms` from the instant `at_ms`
    /// it was emitted at; a zero lag leaves it as it was.
    pub fn backdate(&self, obs: Observation, at_ms: i64, lag_ms: i64) -> (out: Observation)
        requires
            lag_ms != 0 ==> i64::MIN <= at_ms - lag_ms <= i64::MAX,
        ensures
            lag_ms == 0 ==> out == obs,
            lag_ms != 0 ==> out == (Observation { observed_at: Timestamp((at_ms - lag_ms) as i64), ..obs }),
    {
        let mut o = obs;
        if lag_ms != 0 {
            o.observed_at = Timestamp(at_ms - lag_ms);
        }
        o
    }

    /// The record of a completed run of the scenario `name`.
    pub fn session(&self, name: &str, seed: u64, deterministic: bool, timeline: &Timeline, event_count: u64) -> (s:
        ReplaySession)
        ensures
            s.schema_version == SCHEMA_VERSION,
            s.session_id@ == "ses-"@ + name@,
            s.scenario_name@ == name@,
            s.started_at == Timestamp(timeline.start_ms),
            s.finished_at == Some(Timestamp(timeline.end_ms)),
            s.deterministic == deterministic,
            s.seed == seed,
            s.status == ReplayStatus::Completed,
            s.event_count == event_count,
    {
        let mut id = String::from_str("ses-");
        id.append(name);
        ReplaySession {
            schema_version: SCHEMA_VERSION,
            session_id: SessionId(id),
            scenario_name: String::from_str(name),
            started_at: Timestamp(timeline.start_ms),
            finished_at: Some(Timestamp(timeline.end_ms)),
            deterministic,
            seed,
            status: ReplayStatus::Completed,
            event_count,
        }
    }
}

/// The running counts of a replay.
#[derive(Debug, Clone, Copy, PartialEq, Eq, Structural)]
pub struct ReplayTally {
    /// Observations the engine accepted.
    pub accepted: usize,
    /// Feedback entries the engine applied.
    pub operator_overrides: usize,
    /// Events handled, whatever became of them.
    pub event_count: u64,
}

impl ReplayTally {
    pub fn new() -> (t: ReplayTally)
        ensures
            t == (ReplayTally { accepted: 0, operator_overrides: 0, event_count: 0 }),
    {
        ReplayTally { accepted: 0, operator_overrides: 0, event_count: 0 }
    }

    /// An observation that failed validation: it counts as an event and is
    /// otherwise skipped.
    pub fn skip_invalid(&mut self)
        requires
            old(self).event_count < u64::MAX,
        ensures
            *final(self) == (ReplayTally { event_count: (old(self).event_count + 1) as u64, ..*old(self) }),
    {
        self.event_count = self.event_count + 1;
    }

    /// Counts the engine's answer to an observation; the run goes on unless
    /// the engine failed.
    pub fn record_observation(&mut self, res: &Result<FusionOutcome, FabricError>) -> (go_on: bool)
        requires
            old(self).event_count < u64::MAX,
            old(self).accepted < usize::MAX,
        ensures
            go_on == res is Ok,
            final(self).event_count == old(self).event_count + 1,
            final(self).operator_overrides == old(self).operator_overrides,
            final(self).accepted == old(self).accepted + (if res matches Ok(o) && o.accepted {
                1int
            } else {
                0int
            }),
    {
        self.event_count = self.event_count + 1;
        match res {
            Ok(o) => {
                if o.accepted {
                    self.accepted = self.accepted + 1;
                }
                true
            },
            Err(_) => false,
        }
    }

    /// Counts the engine's answer to a feedback entry; feedback on an unknown
    /// track is skipped, and any other failure ends the run.
    pub fn record_feedback(&mut self, res: &Result<FusionOutcome, FabricError>) -> (go_on: bool)
        requires
            old(self).event_count < u64::MAX,
            old(self).operator_overrides < usize::MAX,
        ensures
            go_on == (res is Ok || res matches Err(FabricError::NotFound(_))),
            final(self).event_count == old(self).event_count + 1,
            final(self).accepted == old(self).accepted,
            final(self).operator_overrides == old(self).operator_overrides + (if res is Ok {
                1int
            } else {
                0int
            }),
    {
        self.event_count = self.event_count + 1;
        match res {
            Ok(_) => {
                self.operator_overrides = self.operator_overrides + 1;
                true
            },
            Err(FabricError::NotFound(_)) => true,
            Err(_) => false,
        }
    }
}

} // verus!
