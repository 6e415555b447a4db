//! Schedulability analysis for periodic real-time tasks under fixed-priority
//! preemptive scheduling with rate-monotonic priorities (shorter period means
//! higher priority).
//!
//! The core is the exact response-time analysis: for each task, the worst-case
//! response time is the least fixed point of the recurrence
//! `w = e + sum over higher-priority tasks of ceil(w / p_h) * e_h`,
//! and the task set is schedulable exactly when every task's worst-case
//! response time stays within its period.

pub mod analysis;
pub mod laws;
pub mod priority;
pub mod rta;
pub mod task;
