use crate::task::{same_params, valid_periods, Task};
use vstd::arithmetic::div_mod::{
    lemma_div_is_ordered, lemma_div_pos_is_pos, lemma_multiply_divide_lt,
};
use vstd::arithmetic::mul::{lemma_mul_inequality, lemma_mul_nonnegative};
use vstd::prelude::*;

verus! {

/// Number of activations of a task with period `p` that can fall within a
/// window of length `w`: the integer ceiling of `w / p`.
pub open spec fn activations(w: int, p: int) -> int {
    (w + p - 1) / p
}

/// Total interference that the higher-priority tasks `hp` impose on a window
/// of length `w`: each task contributes one full execution time per
/// activation that fits in the window.
pub open spec fn interference(hp: Seq<Task>, w: int) -> int
    decreases hp.len(),
{
    if hp.len() == 0 {
        0
    } else {
        interference(hp.drop_last(), w) + activations(w, hp.last().period as int) * (
        hp.last().execution_time as int)
    }
}

/// One step of the response-time recurrence for a task with execution time
/// `e` under interference from the higher-priority tasks `hp`.
pub open spec fn rta_step(e: int, hp: Seq<Task>, w: int) -> int {
    e + interference(hp, w)
}

/// `w` solves the response-time recurrence.
pub open spec fn is_fixed_point(e: int, hp: Seq<Task>, w: int) -> bool {
    w == rta_step(e, hp, w)
}

/// `w` is the worst-case response time: the least non-negative solution of
/// the response-time recurrence.
pub open spec fn is_wcrt(e: int, hp: Seq<Task>, w: int) -> bool {
    &&& is_fixed_point(e, hp, w)
    &&& forall|v: int| 0 <= v < w ==> !is_fixed_point(e, hp, v)
}

/// The k-th iterate of the fixed-point iteration started at `e` itself.
pub open spec fn iterate(e: int, hp: Seq<Task>, k: nat) -> int
    decreases k,
{
    if k == 0 {
        e
    } else {
        rta_step(e, hp, iterate(e, hp, (k - 1) as nat))
    }
}

/// The activation count of a window lies between zero and the window length.
pub proof fn lemma_activations_in_bounds(w: int, p: int)
    requires
        0 <= w,
        1 <= p,
    ensures
        0 <= activations(w, p) <= w,
{
    lemma_div_pos_is_pos(w + p - 1, p);
    assert(w + p - 1 < p * (w + 1)) by (nonlinear_arith)
        requires
            0 <= w,
            1 <= p,
    ;
    lemma_multiply_divide_lt(w + p - 1, p, w + 1);
}

/// A longer window never sees fewer activations.
pub proof fn lemma_activations_monotone(w1: int, w2: int, p: int)
    requires
        w1 <= w2,
        1 <= p,
    ensures
        activations(w1, p) <= activations(w2, p),
{
    lemma_div_is_ordered(w1 + p - 1, w2 + p - 1, p);
}

/// Interference is non-negative.
pub proof fn lemma_interference_nonneg(hp: Seq<Task>, w: int)
    requires
        valid_periods(hp),
        0 <= w,
    ensures
        0 <= interference(hp, w),
    decreases hp.len(),
{
    if hp.len() > 0 {
        assert(valid_periods(hp.drop_last()));
        lemma_interference_nonneg(hp.drop_last(), w);
        let t = hp.last();
        lemma_activations_in_bounds(w, t.period as int);
        lemma_mul_nonnegative(activations(w, t.period as int), t.execution_time as int);
    }
}

/// A longer window never sees less interference.
pub proof fn lemma_interference_monotone(hp: Seq<Task>, w1: int, w2: int)
    requires
        valid_periods(hp),
        0 <= w1 <= w2,
    ensures
        interference(hp, w1) <= interference(hp, w2),
    decreases hp.len(),
{
    if hp.len() > 0 {
        assert(valid_periods(hp.drop_last()));
        lemma_interference_monotone(hp.drop_last(), w1, w2);
        let t = hp.last();
        lemma_activations_monotone(w1, w2, t.period as int);
        lemma_mul_inequality(
            activations(w1, t.period as int),
            activations(w2, t.period as int),
            t.execution_time as int,
        );
    }
}

/// The response-time recurrence is monotone in the window length.
pub proof fn lemma_step_monotone(e: int, hp: Seq<Task>, w1: int, w2: int)
    requires
        valid_periods(hp),
        0 <= w1 <= w2,
    ensures
        rta_step(e, hp, w1) <= rta_step(e, hp, w2),
{
    lemma_interference_monotone(hp, w1, w2);
}

/// Extending a prefix of the interfering tasks by one task adds exactly that
/// task's contribution.
pub proof fn lemma_interference_take_step(hp: Seq<Task>, w: int, i: int)
    requires
        0 <= i < hp.len(),
    ensures
        interference(hp.take(i + 1), w) == interference(hp.take(i), w) + activations(
            w,
            hp[i].period as int,
        ) * (hp[i].execution_time as int),
{
    assert(hp.take(i + 1).drop_last() =~= hp.take(i));
    assert(hp.take(i + 1).last() == hp[i]);
}

/// A prefix of the interfering tasks contributes no more interference than
/// the whole sequence does.
pub proof fn lemma_interference_take_le(hp: Seq<Task>, w: int, i: int)
    requires
        valid_periods(hp),
        0 <= w,
        0 <= i <= hp.len(),
    ensures
        interference(hp.take(i), w) <= interference(hp, w),
    decreases hp.len() - i,
{
    if i == hp.len() {
        assert(hp.take(i) =~= hp);
    } else {
        lemma_interference_take_step(hp, w, i);
        lemma_activations_in_bounds(w, hp[i].period as int);
        lemma_mul_nonnegative(activations(w, hp[i].period as int), hp[i].execution_time as int);
        lemma_interference_take_le(hp, w, i + 1);
    }
}

/// Interference reads only execution times and periods, never response
/// times: sequences that agree on those agree on interference.
pub proof fn lemma_interference_same_params(hp1: Seq<Task>, hp2: Seq<Task>, w: int)
    requires
        same_params(hp1, hp2),
    ensures
        interference(hp1, w) == interference(hp2, w),
    decreases hp1.len(),
{
    if hp1.len() > 0 {
        assert(same_params(hp1.drop_last(), hp2.drop_last()));
        lemma_interference_same_params(hp1.drop_last(), hp2.drop_last(), w);
    }
}

/// The iterates of the response-time recurrence form a non-decreasing chain:
/// every iterate is at least the starting execution time, and each is at
/// least the previous one, up to convergence or exceedance.
pub proof fn lemma_iterates_nondecreasing(e: int, hp: Seq<Task>, k: nat)
    requires
        valid_periods(hp),
        0 <= e,
    ensures
        e <= iterate(e, hp, k),
        iterate(e, hp, k) <= iterate(e, hp, (k + 1) as nat),
    decreases k,
{
    if k == 0 {
        lemma_interference_nonneg(hp, e);
    } else {
        lemma_iterates_nondecreasing(e, hp, (k - 1) as nat);
        lemma_step_monotone(e, hp, iterate(e, hp, (k - 1) as nat), iterate(e, hp, k));
        lemma_interference_nonneg(hp, iterate(e, hp, (k - 1) as nat));
    }
}

/// Every iterate stays below every non-negative fixed point: the iteration
/// can never jump over a solution of the recurrence.
pub proof fn lemma_iterate_below_fixed_point(e: int, hp: Seq<Task>, k: nat, f: int)
    requires
        valid_periods(hp),
        0 <= e,
        0 <= f,
        is_fixed_point(e, hp, f),
    ensures
        iterate(e, hp, k) <= f,
    decreases k,
{
    if k == 0 {
        lemma_interference_nonneg(hp, f);
    } else {
        lemma_iterate_below_fixed_point(e, hp, (k - 1) as nat, f);
        lemma_iterates_nondecreasing(e, hp, (k - 1) as nat);
        lemma_step_monotone(e, hp, iterate(e, hp, (k - 1) as nat), f);
    }
}

/// A computed response time is at least the task's own execution time, since
/// interference is non-negative.
pub proof fn lemma_response_time_dominates_execution(e: int, hp: Seq<Task>, w: int)
    requires
        valid_periods(hp),
        0 <= e,
        0 <= w,
        is_fixed_point(e, hp, w),
    ensures
        e <= w,
{
    lemma_interference_nonneg(hp, w);
}

/// One evaluation of the response-time recurrence, capped at the task's
/// period: returns the new window length if it stays within the period, and
/// reports exceedance otherwise.
fn rta_step_bounded(e: u32, period: u32, hp: &[Task], w: u32) -> (r: Option<u32>)
    requires
        valid_periods(hp@),
    ensures
        match r {
            Some(v) => v as int == rta_step(e as int, hp@, w as int) && v <= period,
            None => rta_step(e as int, hp@, w as int) > period,
        },
{
    let mut acc: u64 = e as u64;
    let n: usize = hp.len();
    proof {
        assert(hp@.take(0) =~= Seq::<Task>::empty());
    }
    if acc > period as u64 {
        proof {
            lemma_interference_nonneg(hp@, w as int);
        }
        return None;
    }
    let mut idx: usize = 0;
    while idx < n
        invariant
            valid_periods(hp@),
            n == hp@.len(),
            0 <= idx <= n,
            acc as int == e + interference(hp@.take(idx as int), w as int),
            acc <= period as u64,
        decreases n - idx,
    {
        let t = hp[idx];
        let p64: u64 = t.period as u64;
        let act: u64 = (w as u64 + p64 - 1) / p64;
        proof {
            lemma_activations_in_bounds(w as int, t.period as int);
            assert(act as int == activations(w as int, t.period as int));
            assert(act as int * (t.execution_time as int) <= 0xffff_ffff * 0xffff_ffff)
                by (nonlinear_arith)
                requires
                    0 <= act as int <= 0xffff_ffff,
                    0 <= t.execution_time as int <= 0xffff_ffff,
            ;
            lemma_mul_nonnegative(act as int, t.execution_time as int);
        }
        let term: u64 = act * (t.execution_time as u64);
        proof {
            lemma_interference_take_step(hp@, w as int, idx as int);
        }
        acc = acc + term;
        if acc > period as u64 {
            proof {
                lemma_interference_take_le(hp@, w as int, idx as int + 1);
            }
            return None;
        }
        idx = idx + 1;
    }
    proof {
        assert(hp@.take(n as int) =~= hp@);
    }
    Some(acc as u32)
}

/// Worst-case response time of one task under interference from the given
/// strictly-higher-priority tasks, by fixed-point iteration from the task's
/// own execution time.
///
/// Returns the least solution of the response-time recurrence when one
/// exists within the task's period, and `None` exactly when the recurrence
/// has no solution within the period, in which case the task (and with it
/// the whole task set) is not schedulable.
pub fn compute_response_time(execution_time: u32, period: u32, higher_priority: &[Task]) -> (r:
    Option<u32>)
    requires
        period >= 1,
        valid_periods(higher_priority@),
    ensures
        match r {
            Some(w) => is_wcrt(execution_time as int, higher_priority@, w as int)
                && execution_time <= w <= period,
            None => forall|v: int|
                0 <= v <= period ==> !is_fixed_point(execution_time as int, higher_priority@, v),
        },
{
    let e = execution_time;
    if e > period {
        proof {
            assert forall|v: int| 0 <= v <= period implies !is_fixed_point(
                e as int,
                higher_priority@,
                v,
            ) by {
                lemma_interference_nonneg(higher_priority@, v);
            }
        }
        return None;
    }
    let mut w: u32 = e;
    let ghost mut k: nat = 0;
    loop
        invariant
            e == execution_time,
            period >= 1,
            valid_periods(higher_priority@),
            e <= w <= period,
            w as int == iterate(e as int, higher_priority@, k),
        decreases period - w,
    {
        match rta_step_bounded(e, period, higher_priority, w) {
            None => {
                proof {
                    assert forall|v: int| 0 <= v <= period implies !is_fixed_point(
                        e as int,
                        higher_priority@,
                        v,
                    ) by {
                        if is_fixed_point(e as int, higher_priority@, v) {
                            lemma_iterate_below_fixed_point(e as int, higher_priority@, k, v);
                            lemma_step_monotone(e as int, higher_priority@, w as int, v);
                        }
                    }
                }
                return None;
            },
            Some(w_new) => {
                if w_new == w {
                    proof {
                        assert forall|v: int| 0 <= v < w as int implies !is_fixed_point(
                            e as int,
                            higher_priority@,
                            v,
                        ) by {
                            if is_fixed_point(e as int, higher_priority@, v) {
                                lemma_iterate_below_fixed_point(e as int, higher_priority@, k, v);
                            }
                        }
                    }
                    return Some(w);
                }
                proof {
                    lemma_iterates_nondecreasing(e as int, higher_priority@, k);
                    assert(w_new as int == iterate(e as int, higher_priority@, (k + 1) as nat));
                    k = k + 1;
                }
                w = w_new;
            },
        }
    }
}

} // verus!
