use crate::analysis::{all_schedulable, schedulable, task_schedulable};
use crate::priority::{
    insert_by_period, lemma_sort_contains, lemma_sort_multiset, lemma_sort_of_sorted,
    lemma_sort_sorted, lemma_sort_valid_periods, sort_by_period, sorted_by_period,
};
use crate::rta::{
    is_fixed_point, is_wcrt, lemma_interference_nonneg, lemma_interference_same_params, rta_step,
};
use crate::task::{distinct_periods, same_params, valid_periods, Task};
use vstd::prelude::*;

verus! {

/// The worst-case response time is unique: two least solutions of the same
/// recurrence, over task sequences that agree on the analysis inputs, are
/// equal.
pub proof fn lemma_wcrt_unique(e: int, hp1: Seq<Task>, hp2: Seq<Task>, w1: int, w2: int)
    requires
        same_params(hp1, hp2),
        0 <= w1,
        0 <= w2,
        is_wcrt(e, hp1, w1),
        is_wcrt(e, hp2, w2),
    ensures
        w1 == w2,
{
    lemma_interference_same_params(hp1, hp2, w1);
    lemma_interference_same_params(hp1, hp2, w2);
    if w1 < w2 {
        assert(is_fixed_point(e, hp2, w1));
        assert(false);
    }
    if w2 < w1 {
        assert(is_fixed_point(e, hp1, w2));
        assert(false);
    }
}

/// Re-running the analysis on an already analyzed, priority-ordered task set
/// changes nothing: priority ordering is the identity on an ordered set, the
/// verdict is again schedulable, and every recomputed response time equals
/// the recorded one, because least solutions of the recurrence are unique.
///
/// `analyzed` is a successful analysis output; `reanalyzed` is anything a
/// second successful run can produce from it. They are equal.
pub proof fn lemma_reanalysis_idempotent(analyzed: Seq<Task>, reanalyzed: Seq<Task>)
    requires
        sorted_by_period(analyzed),
        forall|i: int|
            0 <= i < analyzed.len() ==> is_wcrt(
                analyzed[i].execution_time as int,
                analyzed.take(i),
                analyzed[i].response_time as int,
            ) && analyzed[i].response_time <= analyzed[i].period,
        same_params(reanalyzed, sort_by_period(analyzed)),
        forall|i: int|
            0 <= i < reanalyzed.len() ==> is_wcrt(
                reanalyzed[i].execution_time as int,
                reanalyzed.take(i),
                reanalyzed[i].response_time as int,
            ),
    ensures
        sort_by_period(analyzed) == analyzed,
        schedulable(analyzed),
        reanalyzed == analyzed,
{
    lemma_sort_of_sorted(analyzed);
    assert forall|i: int| 0 <= i < analyzed.len() implies task_schedulable(analyzed, i) by {
        let w = analyzed[i].response_time as int;
        assert(is_fixed_point(analyzed[i].execution_time as int, analyzed.take(i), w));
        assert(0 <= w <= analyzed[i].period);
    }
    assert(all_schedulable(sort_by_period(analyzed)));
    assert forall|i: int| 0 <= i < analyzed.len() implies reanalyzed[i] == analyzed[i] by {
        assert(same_params(reanalyzed.take(i), analyzed.take(i)));
        lemma_wcrt_unique(
            analyzed[i].execution_time as int,
            reanalyzed.take(i),
            analyzed.take(i),
            reanalyzed[i].response_time as int,
            analyzed[i].response_time as int,
        );
    }
    assert(reanalyzed =~= analyzed);
}

/// Two sequences ordered by period that hold the same tasks, where distinct
/// tasks never share a period and no task occurs twice, are identical.
proof fn lemma_sorted_unique(a: Seq<Task>, b: Seq<Task>)
    requires
        sorted_by_period(a),
        sorted_by_period(b),
        a.to_multiset() == b.to_multiset(),
        forall|x: Task, y: Task|
            a.to_multiset().contains(x) && a.to_multiset().contains(y) && x != y ==> x.period
                != y.period,
        forall|x: Task| a.to_multiset().contains(x) ==> a.to_multiset().count(x) == 1,
    ensures
        a == b,
    decreases a.len(),
{
    broadcast use vstd::seq_lib::group_to_multiset_ensures;
    broadcast use vstd::multiset::group_multiset_axioms;

    assert(a.len() == a.to_multiset().len());
    assert(b.len() == b.to_multiset().len());
    if a.len() == 0 {
        assert(a =~= b);
    } else {
        assert(a.contains(a[0]));
        assert(b.to_multiset().count(a[0]) > 0);
        assert(b.contains(a[0]));
        let j = choose|j: int| 0 <= j < b.len() && b[j] == a[0];
        assert(b[0].period <= b[j].period);
        assert(b.contains(b[0]));
        assert(a.to_multiset().count(b[0]) > 0);
        assert(a.contains(b[0]));
        let i = choose|i: int| 0 <= i < a.len() && a[i] == b[0];
        assert(a[0].period <= a[i].period);
        assert(a[0].period == b[0].period);
        assert(a.to_multiset().contains(a[0]));
        assert(a.to_multiset().contains(b[0]));
        assert(a[0] == b[0]);
        let a1 = a.remove(0);
        let b1 = b.remove(0);
        assert(a1.to_multiset() =~= a.to_multiset().remove(a[0]));
        assert(b1.to_multiset() =~= b.to_multiset().remove(b[0]));
        assert(a1.to_multiset() == b1.to_multiset());
        assert forall|k: int, l: int| 0 <= k < l < a1.len() implies a1[k].period
            <= a1[l].period by {
            assert(a1[k] == a[k + 1]);
            assert(a1[l] == a[l + 1]);
        }
        assert forall|k: int, l: int| 0 <= k < l < b1.len() implies b1[k].period
            <= b1[l].period by {
            assert(b1[k] == b[k + 1]);
            assert(b1[l] == b[l + 1]);
        }
        assert forall|x: Task, y: Task|
            a1.to_multiset().contains(x) && a1.to_multiset().contains(y) && x != y implies x.period
            != y.period by {
            assert(a.to_multiset().contains(x));
            assert(a.to_multiset().contains(y));
        }
        assert forall|x: Task| a1.to_multiset().contains(x) implies a1.to_multiset().count(x)
            == 1 by {
            assert(a.to_multiset().contains(x));
        }
        lemma_sorted_unique(a1, b1);
        assert forall|k: int| 0 <= k < a.len() implies a[k] == b[k] by {
            if k > 0 {
                assert(a1[k - 1] == a[k]);
                assert(b1[k - 1] == b[k]);
            }
        }
        assert(a =~= b);
    }
}

/// The input order of the tasks does not affect the analysis: two orderings
/// of one task set whose tasks have pairwise distinct periods yield the same
/// priority-ordered sequence, hence the same verdict and, the response times
/// being functions of that sequence alone, the same response time for every
/// task.
///
/// When two tasks share a period the tie is broken by input order, which can
/// change individual response times, so the distinct-period restriction is
/// what the tie-break rule leaves.
pub proof fn lemma_order_invariance(s1: Seq<Task>, s2: Seq<Task>)
    requires
        s1.to_multiset() == s2.to_multiset(),
        distinct_periods(s1),
    ensures
        sort_by_period(s1) == sort_by_period(s2),
        schedulable(s1) == schedulable(s2),
{
    broadcast use vstd::seq_lib::group_to_multiset_ensures;

    lemma_sort_sorted(s1);
    lemma_sort_sorted(s2);
    lemma_sort_multiset(s1);
    lemma_sort_multiset(s2);
    assert forall|i: int, j: int| 0 <= i < s1.len() && 0 <= j < s1.len() && i != j implies s1[i]
        != s1[j] by {
        assert(s1[i].period != s1[j].period);
    }
    assert(s1.no_duplicates());
    s1.lemma_multiset_has_no_duplicates();
    assert forall|x: Task, y: Task|
        s1.to_multiset().contains(x) && s1.to_multiset().contains(y) && x != y implies x.period
        != y.period by {
        assert(s1.contains(x));
        assert(s1.contains(y));
        let ix = choose|ix: int| 0 <= ix < s1.len() && s1[ix] == x;
        let iy = choose|iy: int| 0 <= iy < s1.len() && s1[iy] == y;
        assert(ix != iy);
    }
    lemma_sorted_unique(sort_by_period(s1), sort_by_period(s2));
}

/// Priority-ordering a one-task set returns it unchanged.
pub proof fn lemma_sort_singleton(t: Task)
    ensures
        sort_by_period(seq![t]) == seq![t],
{
    let s = seq![t];
    assert(s.drop_last() =~= Seq::<Task>::empty());
    assert(s.last() == t);
    assert(sort_by_period(Seq::<Task>::empty()) == Seq::<Task>::empty());
    assert(sort_by_period(s) == insert_by_period(Seq::<Task>::empty(), t));
    assert(insert_by_period(Seq::<Task>::empty(), t) =~= s);
}

/// A lone task is schedulable exactly when its execution time fits within
/// its period: with no interference the recurrence is solved by the
/// execution time itself, and only by it. For a single task this makes the
/// exact analysis coincide with the utilization test against the
/// single-task utilization bound of one, since e/p is at most one exactly
/// when e is at most p.
pub proof fn lemma_single_task_exact(t: Task)
    requires
        t.period >= 1,
    ensures
        schedulable(seq![t]) <==> t.execution_time <= t.period,
{
    let s = seq![t];
    lemma_sort_singleton(t);
    assert(s.take(0) =~= Seq::<Task>::empty());
    if t.execution_time <= t.period {
        let w = t.execution_time as int;
        assert(is_fixed_point(t.execution_time as int, s.take(0), w));
        assert(task_schedulable(s, 0));
        assert forall|i: int| 0 <= i < s.len() implies task_schedulable(s, i) by {
            assert(i == 0);
        }
    }
    if schedulable(s) {
        assert(task_schedulable(s, 0));
        let w = choose|w: int|
            0 <= w <= s[0].period && is_fixed_point(s[0].execution_time as int, s.take(0), w);
        assert(w == t.execution_time as int);
    }
}

/// A single task that exactly fills its period is schedulable, and its
/// worst-case response time equals its period: alone, it suffers no
/// interference.
pub proof fn lemma_single_task_full_utilization(t: Task)
    requires
        t.period >= 1,
        t.execution_time == t.period,
    ensures
        is_wcrt(t.execution_time as int, Seq::<Task>::empty(), t.period as int),
        schedulable(seq![t]),
{
    let e = t.execution_time as int;
    assert(is_fixed_point(e, Seq::<Task>::empty(), e));
    assert forall|v: int| 0 <= v < e implies !is_fixed_point(e, Seq::<Task>::empty(), v) by {
        assert(rta_step(e, Seq::<Task>::empty(), v) == e);
    }
    lemma_single_task_exact(t);
}

/// A task whose execution time alone exceeds its period can never meet its
/// deadline, whatever the rest of the set does: the first value of the
/// recurrence already exceeds the period, so the whole set is unschedulable.
pub proof fn lemma_execution_exceeding_period_unschedulable(s: Seq<Task>, i: int)
    requires
        valid_periods(s),
        0 <= i < s.len(),
        s[i].execution_time > s[i].period,
    ensures
        !schedulable(s),
{
    let r = sort_by_period(s);
    assert(s.contains(s[i]));
    lemma_sort_contains(s, s[i]);
    let j = choose|j: int| 0 <= j < r.len() && r[j] == s[i];
    lemma_sort_valid_periods(s);
    assert forall|w: int| 0 <= w <= r[j].period implies !is_fixed_point(
        r[j].execution_time as int,
        r.take(j),
        w,
    ) by {
        assert(valid_periods(r.take(j)));
        lemma_interference_nonneg(r.take(j), w);
    }
    assert(!task_schedulable(r, j));
}

} // verus!
