use vstd::prelude::*;

verus! {

/// One periodic real-time task: a worst-case execution time per activation,
/// an activation period (which is also the implicit deadline), and the
/// worst-case response time that the analyzer fills in.
#[derive(Clone, Copy, PartialEq, Eq, Structural, Debug)]
pub struct Task {
    /// Worst-case execution time per activation.
    pub execution_time: u32,
    /// Activation period, also the implicit deadline; the analyzer requires
    /// it to be positive.
    pub period: u32,
    /// Worst-case response time; meaningful only once the analyzer has
    /// processed the task, zero before that.
    pub response_time: u32,
}

impl Task {
    /// A fresh task record with its response time still unset.
    pub fn new(period: u32, execution_time: u32) -> (t: Task)
        ensures
            t.period == period,
            t.execution_time == execution_time,
            t.response_time == 0,
    {
        Task { execution_time, period, response_time: 0 }
    }
}

/// Every task in the sequence has a positive period, as the ingestion
/// contract guarantees before a task set reaches the analyzer.
pub open spec fn valid_periods(s: Seq<Task>) -> bool {
    forall|i: int| 0 <= i < s.len() ==> s[i].period >= 1
}

/// The two sequences agree position by position on the analysis inputs,
/// execution time and period; their response-time fields may differ.
pub open spec fn same_params(s1: Seq<Task>, s2: Seq<Task>) -> bool {
    &&& s1.len() == s2.len()
    &&& forall|i: int|
        0 <= i < s1.len() ==> s1[i].execution_time == s2[i].execution_time && s1[i].period
            == s2[i].period
}

/// No two tasks of the sequence share a period.
pub open spec fn distinct_periods(s: Seq<Task>) -> bool {
    forall|i: int, j: int|
        0 <= i < s.len() && 0 <= j < s.len() && i != j ==> s[i].period != s[j].period
}

} // verus!
