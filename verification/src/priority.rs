use crate::task::{valid_periods, Task};
use vstd::prelude::*;

verus! {

/// The sequence is ordered by ascending period: under rate-monotonic
/// priorities, the task at a smaller index never has the longer period.
pub open spec fn sorted_by_period(s: Seq<Task>) -> bool {
    forall|i: int, j: int| 0 <= i < j < s.len() ==> s[i].period <= s[j].period
}

/// Insert `t` into `s` after every element whose period is at most `t`'s:
/// the insertion step of a stable insertion sort, so that on equal periods
/// the earlier-arriving task keeps the earlier (higher-priority) position.
pub open spec fn insert_by_period(s: Seq<Task>, t: Task) -> Seq<Task>
    decreases s.len(),
{
    if s.len() == 0 {
        seq![t]
    } else if s.last().period <= t.period {
        s.push(t)
    } else {
        insert_by_period(s.drop_last(), t).push(s.last())
    }
}

/// Stable sort by ascending period: the rate-monotonic priority order, with
/// ties between equal periods broken by original input order.
pub open spec fn sort_by_period(s: Seq<Task>) -> Seq<Task>
    decreases s.len(),
{
    if s.len() == 0 {
        Seq::empty()
    } else {
        insert_by_period(sort_by_period(s.drop_last()), s.last())
    }
}

/// Inserting adds exactly one element.
pub proof fn lemma_insert_len(s: Seq<Task>, t: Task)
    ensures
        insert_by_period(s, t).len() == s.len() + 1,
    decreases s.len(),
{
    if s.len() > 0 && !(s.last().period <= t.period) {
        lemma_insert_len(s.drop_last(), t);
    }
}

/// Inserting into an ordered sequence keeps it ordered.
pub proof fn lemma_insert_sorted(s: Seq<Task>, t: Task)
    requires
        sorted_by_period(s),
    ensures
        sorted_by_period(insert_by_period(s, t)),
    decreases s.len(),
{
    if s.len() == 0 {
    } else if s.last().period <= t.period {
        assert(forall|i: int|
            0 <= i < s.len() ==> s[i].period <= s.last().period);
    } else {
        assert(sorted_by_period(s.drop_last()));
        lemma_insert_sorted(s.drop_last(), t);
        lemma_insert_len(s.drop_last(), t);
        let r = insert_by_period(s.drop_last(), t);
        assert forall|i: int| 0 <= i < r.len() implies r[i].period
            <= s.last().period by {
            lemma_insert_element_bound(s.drop_last(), t, i);
        }
    }
}

/// Every element of an insertion result is either the inserted task or one
/// of the original elements, so its period obeys the bounds they obey.
proof fn lemma_insert_element_bound(s: Seq<Task>, t: Task, i: int)
    requires
        0 <= i < insert_by_period(s, t).len(),
    ensures
        insert_by_period(s, t)[i] == t || s.contains(insert_by_period(s, t)[i]),
    decreases s.len(),
{
    lemma_insert_len(s, t);
    if s.len() == 0 {
    } else if s.last().period <= t.period {
    } else {
        if i < insert_by_period(s.drop_last(), t).len() {
            lemma_insert_element_bound(s.drop_last(), t, i);
        }
    }
}

/// The sort result is ordered by ascending period.
pub proof fn lemma_sort_sorted(s: Seq<Task>)
    ensures
        sorted_by_period(sort_by_period(s)),
    decreases s.len(),
{
    if s.len() > 0 {
        lemma_sort_sorted(s.drop_last());
        lemma_insert_sorted(sort_by_period(s.drop_last()), s.last());
    }
}

/// Inserting a task is, as a multiset, exactly adding that task.
pub proof fn lemma_insert_multiset(s: Seq<Task>, t: Task)
    ensures
        insert_by_period(s, t).to_multiset() =~= s.to_multiset().insert(t),
    decreases s.len(),
{
    broadcast use vstd::seq_lib::group_to_multiset_ensures;

    if s.len() == 0 {
        assert(seq![t] =~= Seq::<Task>::empty().push(t));
    } else if s.last().period <= t.period {
    } else {
        lemma_insert_multiset(s.drop_last(), t);
        assert(s.drop_last().push(s.last()) =~= s);
    }
}

/// Sorting permutes the task set: the multiset of tasks is unchanged.
pub proof fn lemma_sort_multiset(s: Seq<Task>)
    ensures
        sort_by_period(s).to_multiset() =~= s.to_multiset(),
    decreases s.len(),
{
    broadcast use vstd::seq_lib::group_to_multiset_ensures;

    if s.len() > 0 {
        lemma_sort_multiset(s.drop_last());
        lemma_insert_multiset(sort_by_period(s.drop_last()), s.last());
        assert(s.drop_last().push(s.last()) =~= s);
    }
}

/// Sorting preserves membership in both directions.
pub proof fn lemma_sort_contains(s: Seq<Task>, t: Task)
    ensures
        sort_by_period(s).contains(t) <==> s.contains(t),
{
    broadcast use vstd::seq_lib::group_to_multiset_ensures;

    lemma_sort_multiset(s);
    let r = sort_by_period(s);
    assert(r.to_multiset().count(t) == s.to_multiset().count(t));
    assert(r.contains(t) <==> r.to_multiset().count(t) > 0);
    assert(s.contains(t) <==> s.to_multiset().count(t) > 0);
}

/// Sorting a task set with positive periods yields positive periods.
pub proof fn lemma_sort_valid_periods(s: Seq<Task>)
    requires
        valid_periods(s),
    ensures
        valid_periods(sort_by_period(s)),
{
    let r = sort_by_period(s);
    assert forall|i: int| 0 <= i < r.len() implies r[i].period >= 1 by {
        lemma_sort_contains(s, r[i]);
        let j = choose|j: int| 0 <= j < s.len() && s[j] == r[i];
        assert(s[j].period >= 1);
    }
}

/// Sorting an already ordered sequence changes nothing, because a stable
/// sort never reorders elements it finds in order.
pub proof fn lemma_sort_of_sorted(s: Seq<Task>)
    requires
        sorted_by_period(s),
    ensures
        sort_by_period(s) == s,
    decreases s.len(),
{
    if s.len() > 0 {
        assert(sorted_by_period(s.drop_last()));
        lemma_sort_of_sorted(s.drop_last());
        if s.len() == 1 {
            assert(insert_by_period(s.drop_last(), s.last()) =~= s);
        } else {
            assert(s.drop_last().last().period <= s.last().period);
            assert(s.drop_last().push(s.last()) =~= s);
        }
    }
}

/// Positional characterization of the insertion step: inserting `t` at the
/// first position from the back whose predecessors' periods do not exceed
/// `t`'s is exactly the recursive insertion.
pub proof fn lemma_insert_at_position(s: Seq<Task>, t: Task, pos: int)
    requires
        0 <= pos <= s.len(),
        pos == 0 || s[pos - 1].period <= t.period,
        forall|k: int| pos <= k < s.len() ==> s[k].period > t.period,
    ensures
        insert_by_period(s, t) == s.insert(pos, t),
    decreases s.len(),
{
    if s.len() == 0 {
        assert(seq![t] =~= s.insert(0, t));
    } else if pos == s.len() {
        assert(s.last().period <= t.period);
        assert(s.push(t) =~= s.insert(pos, t));
    } else {
        assert(s.last().period > t.period);
        assert(forall|k: int| pos <= k < s.drop_last().len() ==> s.drop_last()[k].period
            > t.period);
        lemma_insert_at_position(s.drop_last(), t, pos);
        assert(insert_by_period(s.drop_last(), t) == s.drop_last().insert(pos, t));
        assert(s.drop_last().insert(pos, t).push(s.last()) =~= s.insert(pos, t));
    }
}

/// Reorder the task records by ascending period: rate-monotonic priority
/// assignment. The sort is stable, so tasks with equal periods keep their
/// original relative order, the earlier one counting as higher priority.
pub fn assign_priority_order(tasks: &mut Vec<Task>)
    ensures
        final(tasks)@ == sort_by_period(old(tasks)@),
{
    let n: usize = tasks.len();
    let mut ordered: Vec<Task> = Vec::new();
    let mut i: usize = 0;
    while i < n
        invariant
            n == tasks@.len(),
            tasks@ == old(tasks)@,
            0 <= i <= n,
            ordered@ == sort_by_period(tasks@.take(i as int)),
        decreases n - i,
    {
        let t = tasks[i];
        let mut pos: usize = ordered.len();
        while pos > 0 && ordered[pos - 1].period > t.period
            invariant
                pos <= ordered@.len(),
                forall|k: int| pos <= k < ordered@.len() ==> ordered@[k].period > t.period,
            decreases pos,
        {
            pos = pos - 1;
        }
        proof {
            lemma_insert_at_position(ordered@, t, pos as int);
            assert(tasks@.take(i + 1).drop_last() =~= tasks@.take(i as int));
            assert(tasks@.take(i + 1).last() == tasks@[i as int]);
        }
        ordered.insert(pos, t);
        i = i + 1;
    }
    proof {
        assert(tasks@.take(n as int) =~= tasks@);
    }
    *tasks = ordered;
}

} // verus!
