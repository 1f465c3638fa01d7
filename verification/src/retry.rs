//! Bounded retry of the work on one address.
//!
//! The executor decides; it neither fetches nor sleeps. Its owner makes an
//! attempt, reports a failure, and is told whether to try again after the
//! delay or to give up.

use vstd::prelude::*;
use crate::log::LogRecord;

verus! {

/// The number of attempts after which an address is given up.
pub const MAX_RETRIES: u32 = 4;

/// The seconds to wait before the next attempt. The delay is always the same.
pub const RETRY_DELAY_SECS: u64 = 1;

/// What follows a failed attempt.
#[derive(Debug, PartialEq, Eq)]
pub enum Verdict {
    /// Write `warning` to the log, wait `delay_secs` seconds and try again.
    Retry { warning: LogRecord, delay_secs: u64 },
    /// The failure is final for this address.
    GiveUp,
}

/// Whether the failure of attempt number `attempt`, counted from 1, is final.
pub open spec fn is_final(attempt: nat) -> bool {
    attempt >= MAX_RETRIES
}

/// How the work on one address ends.
pub struct Outcome {
    pub succeeded: bool,
    /// The number of attempts made.
    pub attempts: nat,
    /// The number of warnings written.
    pub warnings: nat,
}

/// How the work ends when `attempts` attempts have been made and `warnings`
/// warnings written, and the next `failures` attempts fail before one
/// succeeds.
pub open spec fn outcome_from(attempts: nat, warnings: nat, failures: nat) -> Outcome
    decreases failures,
{
    if failures == 0 {
        Outcome { succeeded: true, attempts: attempts + 1, warnings }
    } else if is_final(attempts + 1) {
        Outcome { succeeded: false, attempts: attempts + 1, warnings }
    } else {
        outcome_from(attempts + 1, warnings + 1, (failures - 1) as nat)
    }
}

/// How the work on a fresh address ends when the first `failures` attempts
/// fail and every later one succeeds.
pub open spec fn outcome(failures: nat) -> Outcome {
    outcome_from(0, 0, failures)
}

proof fn lemma_outcome_from(attempts: nat, warnings: nat, failures: nat)
    requires
        attempts < MAX_RETRIES,
    ensures
        outcome_from(attempts, warnings, failures).succeeded <==> attempts + failures
            < MAX_RETRIES,
        attempts + failures < MAX_RETRIES ==> outcome_from(attempts, warnings, failures).warnings
            == warnings + failures && outcome_from(attempts, warnings, failures).attempts
            == attempts + failures + 1,
        attempts + failures >= MAX_RETRIES ==> outcome_from(attempts, warnings, failures).warnings
            == warnings + (MAX_RETRIES - 1 - attempts) && outcome_from(
            attempts,
            warnings,
            failures,
        ).attempts == MAX_RETRIES,
    decreases failures,
{
    if failures > 0 && !is_final(attempts + 1) {
        lemma_outcome_from(attempts + 1, warnings + 1, (failures - 1) as nat);
    }
}

/// The work succeeds exactly when fewer than [`MAX_RETRIES`] attempts fail
/// before one succeeds, and never takes more than [`MAX_RETRIES`] attempts.
pub proof fn lemma_retry_ceiling(failures: nat)
    ensures
        outcome(failures).succeeded <==> failures < MAX_RETRIES,
        outcome(failures).attempts == if failures < MAX_RETRIES {
            failures + 1
        } else {
            MAX_RETRIES as nat
        },
{
    lemma_outcome_from(0, 0, failures);
}

/// Where the work succeeds, every failure before was answered with a warning.
pub proof fn lemma_warnings_before_success(failures: nat)
    requires
        failures < MAX_RETRIES,
    ensures
        outcome(failures).warnings == failures,
        outcome(failures).warnings == if failures <= MAX_RETRIES {
            failures
        } else {
            MAX_RETRIES as nat
        },
{
    lemma_outcome_from(0, 0, failures);
}

/// Where the work is given up, a warning was written for every failure but
/// the last: the failure of attempt number [`MAX_RETRIES`] gets none.
pub proof fn lemma_warnings_before_giving_up(failures: nat)
    requires
        failures >= MAX_RETRIES,
    ensures
        outcome(failures).warnings == MAX_RETRIES - 1,
{
    lemma_outcome_from(0, 0, failures);
}

/// Counts the attempts on one address and decides after each failure.
#[derive(Debug)]
pub struct RetryExecutor {
    attempts: u32,
}

impl RetryExecutor {
    #[verifier::type_invariant]
    spec fn within_limit(self) -> bool {
        self.attempts <= MAX_RETRIES
    }

    /// The number of attempts that have failed so far.
    pub closed spec fn failed_attempts(&self) -> nat {
        self.attempts as nat
    }

    /// An executor for an address on which no attempt has been made.
    pub fn new() -> (executor: RetryExecutor)
        ensures
            executor.failed_attempts() == 0,
    {
        RetryExecutor { attempts: 0 }
    }

    /// The number of attempts that have failed so far.
    pub fn attempts(&self) -> (n: u32)
        ensures
            n == self.failed_attempts(),
            n <= MAX_RETRIES,
    {
        proof {
            use_type_invariant(self);
        }
        self.attempts
    }

    /// Takes in that one more attempt on `address` has failed. The failure of
    /// attempt number [`MAX_RETRIES`] is final, and so is any after it. An
    /// earlier one is answered with a warning for the log and the delay
    /// before the next attempt.
    pub fn record_failure(&mut self, address: &str) -> (verdict: Verdict)
        ensures
            final(self).failed_attempts() == if old(self).failed_attempts() < MAX_RETRIES {
                old(self).failed_attempts() + 1
            } else {
                old(self).failed_attempts()
            },
            is_final(old(self).failed_attempts() + 1) <==> verdict is GiveUp,
            verdict matches Verdict::Retry { warning, delay_secs } ==> {
                &&& delay_secs == RETRY_DELAY_SECS
                &&& warning matches LogRecord::Warn { address: a, attempt, limit }
                &&& a@ == address@
                &&& attempt == old(self).failed_attempts() + 1
                &&& limit == MAX_RETRIES
            },
    {
        proof {
            use_type_invariant(&*self);
        }
        if self.attempts < MAX_RETRIES {
            self.attempts = self.attempts + 1;
        }
        if self.attempts >= MAX_RETRIES {
            Verdict::GiveUp
        } else {
            Verdict::Retry {
                warning: LogRecord::Warn {
                    address: String::from_str(address),
                    attempt: self.attempts,
                    limit: MAX_RETRIES,
                },
                delay_secs: RETRY_DELAY_SECS,
            }
        }
    }
}

} // verus!
