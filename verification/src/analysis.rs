use crate::priority::{assign_priority_order, lemma_sort_sorted, sort_by_period, sorted_by_period};
use crate::rta::{compute_response_time, is_fixed_point, is_wcrt, lemma_interference_same_params};
use crate::task::{same_params, valid_periods, Task};
use vstd::prelude::*;
use vstd::slice::slice_subrange;

verus! {

/// Task `i` of the priority-ordered sequence `s` meets its deadline: the
/// response-time recurrence over the strictly-higher-priority tasks before
/// it has a solution within its period.
pub open spec fn task_schedulable(s: Seq<Task>, i: int) -> bool {
    exists|w: int|
        0 <= w <= s[i].period && is_fixed_point(s[i].execution_time as int, s.take(i), w)
}

/// Every task of the priority-ordered sequence meets its deadline.
pub open spec fn all_schedulable(s: Seq<Task>) -> bool {
    forall|i: int| 0 <= i < s.len() ==> task_schedulable(s, i)
}

/// The task set is schedulable under rate-monotonic fixed-priority
/// scheduling: after priority ordering, every task meets its deadline.
pub open spec fn schedulable(s: Seq<Task>) -> bool {
    all_schedulable(sort_by_period(s))
}

/// The per-task verdict reads only execution times and periods, never the
/// response-time fields.
pub proof fn lemma_task_schedulable_same_params(s1: Seq<Task>, s2: Seq<Task>, i: int)
    requires
        same_params(s1, s2),
        0 <= i < s1.len(),
    ensures
        task_schedulable(s1, i) == task_schedulable(s2, i),
{
    assert(same_params(s1.take(i), s2.take(i)));
    assert forall|w: int| is_fixed_point(s1[i].execution_time as int, s1.take(i), w)
        == is_fixed_point(s2[i].execution_time as int, s2.take(i), w) by {
        lemma_interference_same_params(s1.take(i), s2.take(i), w);
    }
    assert(task_schedulable(s1, i) ==> task_schedulable(s2, i));
    assert(task_schedulable(s2, i) ==> task_schedulable(s1, i));
}

/// Being ordered by period is a property of the periods alone, so it
/// carries over between sequences that agree on the analysis inputs.
pub proof fn lemma_sorted_same_params(s1: Seq<Task>, s2: Seq<Task>)
    requires
        same_params(s1, s2),
        sorted_by_period(s2),
    ensures
        sorted_by_period(s1),
{
    assert forall|i: int, j: int| 0 <= i < j < s1.len() implies s1[i].period <= s1[j].period by {
        assert(s1[i].period == s2[i].period);
        assert(s1[j].period == s2[j].period);
    }
}

/// The overall verdict reads only execution times and periods.
pub proof fn lemma_all_schedulable_same_params(s1: Seq<Task>, s2: Seq<Task>)
    requires
        same_params(s1, s2),
    ensures
        all_schedulable(s1) == all_schedulable(s2),
{
    assert forall|i: int| 0 <= i < s1.len() implies task_schedulable(s1, i) == task_schedulable(
        s2,
        i,
    ) by {
        lemma_task_schedulable_same_params(s1, s2, i);
    }
}

/// Exact schedulability analysis of a task set.
///
/// Reorders the tasks into rate-monotonic priority order (ascending period,
/// ties kept in input order), then runs the response-time analysis task by
/// task in that order, writing each computed worst-case response time into
/// the task record. Stops at the first task whose recurrence exceeds its
/// period: the set is then not schedulable. An empty set is trivially
/// schedulable.
///
/// On success every task record carries its worst-case response time; on
/// failure the records keep the priority order but only the tasks before the
/// failing one have been annotated.
pub fn is_schedulable(tasks: &mut Vec<Task>) -> (r: bool)
    requires
        valid_periods(old(tasks)@),
    ensures
        same_params(final(tasks)@, sort_by_period(old(tasks)@)),
        sorted_by_period(final(tasks)@),
        r == schedulable(old(tasks)@),
        r ==> forall|i: int|
            0 <= i < final(tasks)@.len() ==> is_wcrt(
                final(tasks)@[i].execution_time as int,
                final(tasks)@.take(i),
                final(tasks)@[i].response_time as int,
            ) && final(tasks)@[i].execution_time <= final(tasks)@[i].response_time
                && final(tasks)@[i].response_time <= final(tasks)@[i].period,
{
    assign_priority_order(tasks);
    proof {
        crate::priority::lemma_sort_valid_periods(old(tasks)@);
    }
    let ghost ordered: Seq<Task> = tasks@;
    let n: usize = tasks.len();
    let mut i: usize = 0;
    while i < n
        invariant
            n == tasks@.len(),
            0 <= i <= n,
            valid_periods(tasks@),
            ordered == sort_by_period(old(tasks)@),
            same_params(tasks@, ordered),
            forall|k: int|
                0 <= k < i ==> is_wcrt(
                    tasks@[k].execution_time as int,
                    tasks@.take(k),
                    tasks@[k].response_time as int,
                ) && tasks@[k].execution_time <= tasks@[k].response_time <= tasks@[k].period,
        decreases n - i,
    {
        let t = tasks[i];
        let hp: &[Task] = slice_subrange(tasks.as_slice(), 0, i);
        proof {
            assert(hp@ =~= tasks@.take(i as int));
        }
        match compute_response_time(t.execution_time, t.period, hp) {
            None => {
                proof {
                    assert(!task_schedulable(tasks@, i as int));
                    lemma_all_schedulable_same_params(tasks@, ordered);
                    assert(!all_schedulable(ordered));
                    lemma_sort_sorted(old(tasks)@);
                    lemma_sorted_same_params(tasks@, ordered);
                }
                return false;
            },
            Some(wcrt) => {
                let mut annotated = tasks[i];
                annotated.response_time = wcrt;
                let ghost before: Seq<Task> = tasks@;
                tasks[i] = annotated;
                proof {
                    assert forall|k: int| 0 <= k < i + 1 implies is_wcrt(
                        tasks@[k].execution_time as int,
                        tasks@.take(k),
                        tasks@[k].response_time as int,
                    ) && tasks@[k].execution_time <= tasks@[k].response_time
                        && tasks@[k].response_time <= tasks@[k].period by {
                        assert(tasks@.take(k) =~= before.take(k));
                    }
                }
            },
        }
        i = i + 1;
    }
    proof {
        assert forall|k: int| 0 <= k < tasks@.len() implies task_schedulable(tasks@, k) by {
            assert(is_wcrt(
                tasks@[k].execution_time as int,
                tasks@.take(k),
                tasks@[k].response_time as int,
            ));
            assert(is_fixed_point(
                tasks@[k].execution_time as int,
                tasks@.take(k),
                tasks@[k].response_time as int,
            ));
        }
        lemma_all_schedulable_same_params(tasks@, ordered);
        lemma_sort_sorted(old(tasks)@);
        lemma_sorted_same_params(tasks@, ordered);
    }
    true
}

} // verus!
