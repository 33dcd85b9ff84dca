//! How often a cycle runs, and how soon after a failure.

use vstd::prelude::*;

verus! {

/// How often the poller runs a cycle, and how soon after a failure, in
/// milliseconds.
#[derive(Debug)]
pub struct Schedule {
    pub interval: u64,
    /// The waits after the first, second, … failure in a row; after the last,
    /// the ordinary interval.
    pub retry: Vec<u64>,
}

impl Default for Schedule {
    fn default() -> (r: Self)
        ensures
            r.interval == 60_000,
            r.retry@ == seq![5_000u64, 15_000u64, 30_000u64],
    {
        let r = Schedule { interval: 60_000, retry: vec![5_000u64, 15_000u64, 30_000u64] };
        assert(r.retry@ =~= seq![5_000u64, 15_000u64, 30_000u64]);
        r
    }
}

/// How a cycle ended, as the poller sees it.
#[derive(Debug, Clone, Copy, PartialEq, Eq, Structural)]
pub enum Ended {
    Well,
    Failed,
    /// The poller is being stopped.
    Cancelled,
}

/// The wait after the failure numbered `failures`, counted from 0.
pub open spec fn retry_wait(s: Schedule, failures: nat) -> u64 {
    if failures < s.retry@.len() {
        s.retry@[failures as int]
    } else {
        s.interval
    }
}

/// How many cycles in a row have failed.
pub struct Poller {
    pub failures: usize,
}

/// How long to wait once a cycle has ended so after `failures` in a row, and how
/// many have failed in a row then.
pub open spec fn polled(s: Schedule, failures: nat, how: Ended) -> (Option<u64>, nat) {
    match how {
        Ended::Well => (Some(s.interval), 0),
        Ended::Failed => (
            Some(retry_wait(s, failures)),
            if failures < usize::MAX {
                failures + 1
            } else {
                failures
            },
        ),
        Ended::Cancelled => (None, failures),
    }
}

impl Poller {
    pub fn new() -> (r: Self)
        ensures
            r.failures == 0,
    {
        Poller { failures: 0 }
    }

    /// How long to wait once a cycle has ended so; nothing when the poller is
    /// being stopped.
    pub fn ended(&mut self, schedule: &Schedule, how: Ended) -> (wait: Option<u64>)
        ensures
            (wait, final(self).failures as nat) == polled(*schedule, old(self).failures as nat, how),
            match how {
                Ended::Well => wait == Some(schedule.interval) && final(self).failures == 0,
                Ended::Failed => wait == Some(retry_wait(*schedule, old(self).failures as nat))
                    && final(self).failures == if old(self).failures < usize::MAX {
                    old(self).failures + 1
                } else {
                    usize::MAX as int
                },
                Ended::Cancelled => wait is None && final(self).failures == old(self).failures,
            },
    {
        match how {
            Ended::Well => {
                self.failures = 0;
                Some(schedule.interval)
            },
            Ended::Failed => {
                let wait = if self.failures < schedule.retry.len() {
                    schedule.retry[self.failures]
                } else {
                    schedule.interval
                };
                if self.failures < usize::MAX {
                    self.failures = self.failures + 1;
                }
                Some(wait)
            },
            Ended::Cancelled => None,
        }
    }
}

/// However many cycles fail in a row, the poller waits no longer than its
/// longest wait.
pub proof fn law_the_wait_is_bounded(s: Schedule, failures: nat, longest: u64)
    requires
        s.interval <= longest,
        forall|k: int| 0 <= k < s.retry@.len() ==> #[trigger] s.retry@[k] <= longest,
    ensures
        retry_wait(s, failures) <= longest,
{
}

/// A cycle that went well is followed by another after the ordinary interval,
/// whatever failed before; the first, second, … failure in a row by one after
/// the first, second, … retry, and any after the last by the interval; and a
/// poller that is stopped waits for nothing.
pub proof fn law_a_failure_is_tried_again_sooner_and_success_starts_over(
    s: Schedule,
    failures: nat,
    k: int,
)
    requires
        0 <= k < s.retry@.len() <= usize::MAX,
    ensures
        polled(s, failures, Ended::Well) == (Some(s.interval), 0nat),
        polled(s, k as nat, Ended::Failed) == (Some(s.retry@[k]), (k + 1) as nat),
        failures >= s.retry@.len() ==> polled(s, failures, Ended::Failed).0 == Some(s.interval),
        failures < usize::MAX ==> polled(s, failures, Ended::Failed).1 == failures + 1,
        polled(s, failures, Ended::Cancelled) == (None::<u64>, failures),
{
}

} // verus!
