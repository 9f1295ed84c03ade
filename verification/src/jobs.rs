//! Durable job delivery policy for queued extraction work.
//!
//! Side-effect free: classifies retryability, computes backoff, and reduces
//! job/batch state. The queue and the database apply the resulting
//! [`DeliveryAction`].

use vstd::prelude::*;

use crate::models::BatchStatus;

verus! {

pub const DEFAULT_MAX_ATTEMPTS: u32 = 5;

pub const DEFAULT_INITIAL_BACKOFF_MS: u64 = 1_000;

pub const DEFAULT_MAX_BACKOFF_MS: u64 = 60_000;

/// Jitter ratio in parts per million: 200000 is ±20%.
pub const DEFAULT_JITTER_RATIO_PPM: u32 = 200_000;

/// One, in parts per million.
pub const PPM: u32 = 1_000_000;

#[derive(Debug, Clone, Copy, PartialEq, Eq, Structural)]
pub enum Retryability {
    Retryable,
    Permanent,
}

/// Worker-facing error with an explicit retry classification.
///
/// Provider, storage, and timeout failures are retryable. Missing resources,
/// validation errors, and malformed payloads are permanent.
#[derive(Debug, Clone, PartialEq, Eq)]
pub enum JobError {
    Retryable { message: String },
    Permanent { message: String },
}

impl JobError {
    pub fn retryable(message: String) -> (e: JobError)
        ensures
            e matches JobError::Retryable { message: m } && m@ == message@,
    {
        JobError::Retryable { message }
    }

    pub fn permanent(message: String) -> (e: JobError)
        ensures
            e matches JobError::Permanent { message: m } && m@ == message@,
    {
        JobError::Permanent { message }
    }

    pub open spec fn retryability_spec(&self) -> Retryability {
        match self {
            JobError::Retryable { .. } => Retryability::Retryable,
            JobError::Permanent { .. } => Retryability::Permanent,
        }
    }

    pub open spec fn message_spec(&self) -> Seq<char> {
        match self {
            JobError::Retryable { message } => message@,
            JobError::Permanent { message } => message@,
        }
    }

    pub fn retryability(&self) -> (r: Retryability)
        ensures
            r == self.retryability_spec(),
    {
        match self {
            JobError::Retryable { .. } => Retryability::Retryable,
            JobError::Permanent { .. } => Retryability::Permanent,
        }
    }

    /// The error's text (also its display text).
    pub fn message(&self) -> (s: &String)
        ensures
            s@ == self.message_spec(),
    {
        match self {
            JobError::Retryable { message } => message,
            JobError::Permanent { message } => message,
        }
    }
}

/// HTTP statuses that are safe to retry for an upstream provider call.
pub fn retryable_http_status(status: u16) -> (retryable: bool)
    ensures
        retryable == (status == 408 || status == 425 || status == 429 || (500 <= status
            <= 599)),
{
    status == 408 || status == 425 || status == 429 || (500 <= status && status <= 599)
}

/// Retry schedule. Durations are whole milliseconds; the jitter ratio is in
/// parts per million and belongs in `0..=PPM`.
#[derive(Debug, Clone, Copy, PartialEq, Eq, Structural)]
pub struct RetryPolicy {
    pub max_attempts: u32,
    pub initial_backoff_ms: u64,
    pub max_backoff_ms: u64,
    pub jitter_ratio_ppm: u32,
}

pub open spec fn min_int(a: int, b: int) -> int {
    if a <= b {
        a
    } else {
        b
    }
}

pub open spec fn pow2(n: nat) -> nat
    decreases n,
{
    if n == 0 {
        1
    } else {
        2 * pow2((n - 1) as nat)
    }
}

/// Exponential backoff before jitter: `initial * 2^(attempt - 1)`, the exponent
/// capped at 16, the result capped at `max`.
pub open spec fn capped_backoff(policy: RetryPolicy, attempt: u32) -> int {
    let exp = min_int(if attempt >= 1 { attempt - 1 } else { 0 }, 16);
    min_int(policy.initial_backoff_ms * pow2(exp as nat), policy.max_backoff_ms as int)
}

/// `1 + (2u - 1) * ratio`, scaled by `PPM * PPM`, for a sample `u` clamped to
/// `0..=PPM`.
pub open spec fn jitter_factor(policy: RetryPolicy, jitter_unit_ppm: u32) -> int {
    let u = min_int(jitter_unit_ppm as int, PPM as int);
    (PPM as int) * (PPM as int) + (2 * u - PPM) * policy.jitter_ratio_ppm
}

/// The backoff in milliseconds: the capped backoff scaled by the jitter
/// factor, rounded down, at least 0 and at most `u64::MAX`.
pub open spec fn backoff_spec(policy: RetryPolicy, attempt: u32, jitter_unit_ppm: u32) -> int {
    let f = jitter_factor(policy, jitter_unit_ppm);
    if f <= 0 {
        0
    } else {
        min_int(capped_backoff(policy, attempt) * f / ((PPM as int) * (PPM as int)), u64::MAX as int)
    }
}

impl RetryPolicy {
    pub fn default_policy() -> (p: RetryPolicy)
        ensures
            p.max_attempts == DEFAULT_MAX_ATTEMPTS,
            p.initial_backoff_ms == DEFAULT_INITIAL_BACKOFF_MS,
            p.max_backoff_ms == DEFAULT_MAX_BACKOFF_MS,
            p.jitter_ratio_ppm == DEFAULT_JITTER_RATIO_PPM,
    {
        RetryPolicy {
            max_attempts: DEFAULT_MAX_ATTEMPTS,
            initial_backoff_ms: DEFAULT_INITIAL_BACKOFF_MS,
            max_backoff_ms: DEFAULT_MAX_BACKOFF_MS,
            jitter_ratio_ppm: DEFAULT_JITTER_RATIO_PPM,
        }
    }

    /// At least one attempt, a maximum backoff no shorter than the initial
    /// one, and the jitter ratio clamped to `0..=PPM`.
    pub fn new(max_attempts: u32, initial_backoff_ms: u64, max_backoff_ms: u64, jitter_ratio_ppm: u32) -> (p: RetryPolicy)
        ensures
            p.max_attempts == if max_attempts >= 1 { max_attempts } else { 1 },
            p.initial_backoff_ms == initial_backoff_ms,
            p.max_backoff_ms == if max_backoff_ms >= initial_backoff_ms {
                max_backoff_ms
            } else {
                initial_backoff_ms
            },
            p.jitter_ratio_ppm == if jitter_ratio_ppm <= PPM { jitter_ratio_ppm } else { PPM },
    {
        RetryPolicy {
            max_attempts: if max_attempts >= 1 { max_attempts } else { 1 },
            initial_backoff_ms,
            max_backoff_ms: if max_backoff_ms >= initial_backoff_ms {
                max_backoff_ms
            } else {
                initial_backoff_ms
            },
            jitter_ratio_ppm: if jitter_ratio_ppm <= PPM { jitter_ratio_ppm } else { PPM },
        }
    }

    pub fn can_retry(self, attempt: u32) -> (r: bool)
        ensures
            r == (attempt < self.max_attempts),
    {
        attempt < self.max_attempts
    }

    /// Backoff after `attempt` (1-based) has failed, for a jitter sample
    /// `jitter_unit_ppm` in `0..=PPM`; `PPM / 2` applies no jitter.
    pub fn backoff(self, attempt: u32, jitter_unit_ppm: u32) -> (ms: u64)
        ensures
            ms as int == backoff_spec(self, attempt, jitter_unit_ppm),
    {
        let exp: u32 = if attempt >= 1 { attempt - 1 } else { 0 };
        let exp: u32 = if exp <= 16 { exp } else { 16 };
        let mut factor: u128 = 1;
        let mut k: u32 = 0;
        while k < exp
            invariant
                k <= exp <= 16,
                factor == pow2(k as nat),
            decreases exp - k,
        {
            proof {
                assert(pow2((k + 1) as nat) == 2 * pow2(k as nat));
                lemma_pow2_le(k as nat);
            }
            factor = factor * 2;
            k = k + 1;
        }
        proof {
            lemma_pow2_le(exp as nat);
            assert(self.initial_backoff_ms as u128 * factor <= u64::MAX as u128 * 65536u128) by (nonlinear_arith)
                requires
                    factor <= 65536,
                    self.initial_backoff_ms <= u64::MAX,
            ;
        }
        let grown: u128 = self.initial_backoff_ms as u128 * factor;
        let capped: u128 = if grown <= self.max_backoff_ms as u128 {
            grown
        } else {
            self.max_backoff_ms as u128
        };
        let u: u128 = if jitter_unit_ppm <= PPM { jitter_unit_ppm as u128 } else { PPM as u128 };
        let r: u128 = self.jitter_ratio_ppm as u128;
        let scale: u128 = 1_000_000_000_000;
        let ghost f = jitter_factor(self, jitter_unit_ppm);
        let ghost c = capped_backoff(self, attempt);
        proof {
            assert(capped == c);
            assert(capped <= u64::MAX);
        }
        let num: u128 = if 2 * u >= PPM as u128 {
            let d: u128 = 2 * u - PPM as u128;
            proof {
                assert(d * r <= 1_000_000u128 * 0xffff_ffffu128) by (nonlinear_arith)
                    requires
                        d <= 1_000_000,
                        r <= 0xffff_ffff,
                ;
            }
            let plus: u128 = d * r;
            proof {
                assert(capped * (scale + plus) <= 0xffff_ffff_ffff_ffffu128 * (1_000_000_000_000u128 + 1_000_000u128 * 0xffff_ffffu128)) by (nonlinear_arith)
                    requires
                        capped <= 0xffff_ffff_ffff_ffff,
                        plus <= 1_000_000u128 * 0xffff_ffffu128,
                        scale == 1_000_000_000_000,
                ;
                assert(f == scale + plus);
            }
            capped * (scale + plus)
        } else {
            let d: u128 = PPM as u128 - 2 * u;
            proof {
                assert(d * r <= 1_000_000u128 * 0xffff_ffffu128) by (nonlinear_arith)
                    requires
                        d <= 1_000_000,
                        r <= 0xffff_ffff,
                ;
            }
            let minus: u128 = d * r;
            proof {
                assert((2 * u - 1_000_000) * r == -(d * r)) by (nonlinear_arith)
                    requires
                        d == 1_000_000 - 2 * u,
                ;
                assert(f == scale - minus);
            }
            if minus >= scale {
                0
            } else {
                proof {
                    assert(capped * (scale - minus) <= 0xffff_ffff_ffff_ffffu128 * 1_000_000_000_000u128) by (nonlinear_arith)
                        requires
                            capped <= 0xffff_ffff_ffff_ffff,
                            minus < scale,
                            scale == 1_000_000_000_000,
                    ;
                }
                capped * (scale - minus)
            }
        };
        proof {
            if f > 0 {
                assert(num == c * f);
            } else {
                assert(num == 0);
            }
        }
        let q: u128 = num / scale;
        if q > u64::MAX as u128 {
            u64::MAX
        } else {
            proof {
                if f <= 0 {
                    assert(q == 0);
                }
            }
            q as u64
        }
    }
}

/// Trusted: `rand::random_range(0..PPM)`, a uniform sample in `0..PPM`.
#[verifier::external_body]
fn random_jitter_ppm() -> (r: u32)
    ensures
        r < PPM,
{
    rand::random_range(0..PPM)
}

impl RetryPolicy {
    /// The backoff after `attempt` with a freshly drawn jitter sample.
    pub fn sampled_backoff(self, attempt: u32) -> (ms: u64)
        ensures
            exists|j: u32| j < PPM && ms as int == #[trigger] backoff_spec(self, attempt, j),
    {
        let j = random_jitter_ppm();
        self.backoff(attempt, j)
    }
}

proof fn lemma_pow2_monotonic(i: nat, j: nat)
    requires
        i <= j,
    ensures
        1 <= pow2(i) <= pow2(j),
    decreases j,
{
    if j > i {
        lemma_pow2_monotonic(i, (j - 1) as nat);
    } else {
        lemma_pow2_positive(i);
    }
}

proof fn lemma_pow2_positive(n: nat)
    ensures
        pow2(n) >= 1,
    decreases n,
{
    if n > 0 {
        lemma_pow2_positive((n - 1) as nat);
    }
}

proof fn lemma_pow2_le(n: nat)
    requires
        n <= 16,
    ensures
        1 <= pow2(n) <= 65536,
{
    lemma_pow2_monotonic(n, 16);
    reveal_with_fuel(pow2, 17);
    assert(pow2(16) == 65536);
}

/// Durable job lifecycle stored on the extraction row.
#[derive(Debug, Clone, Copy, PartialEq, Eq, Structural)]
pub enum JobStatus {
    Pending,
    Processing,
    Retrying,
    Completed,
    Failed,
}

impl JobStatus {
    pub open spec fn as_str_spec(self) -> Seq<char> {
        match self {
            JobStatus::Pending => "pending"@,
            JobStatus::Processing => "processing"@,
            JobStatus::Retrying => "retrying"@,
            JobStatus::Completed => "completed"@,
            JobStatus::Failed => "failed"@,
        }
    }

    pub fn as_str(self) -> (s: &'static str)
        ensures
            s@ == self.as_str_spec(),
    {
        match self {
            JobStatus::Pending => "pending",
            JobStatus::Processing => "processing",
            JobStatus::Retrying => "retrying",
            JobStatus::Completed => "completed",
            JobStatus::Failed => "failed",
        }
    }

    /// The status whose text is `value`.
    pub fn parse(value: &str) -> (r: Option<JobStatus>)
        ensures
            match r {
                Some(s) => s.as_str_spec() == value@,
                None => forall|s: JobStatus| s.as_str_spec() != value@,
            },
    {
        let v = crate::text::chars_of(value);
        proof {
            reveal_strlit("pending");
            reveal_strlit("processing");
            reveal_strlit("retrying");
            reveal_strlit("completed");
            reveal_strlit("failed");
        }
        if crate::text::chars_eq_str(v.as_slice(), "pending") {
            Some(JobStatus::Pending)
        } else if crate::text::chars_eq_str(v.as_slice(), "processing") {
            Some(JobStatus::Processing)
        } else if crate::text::chars_eq_str(v.as_slice(), "retrying") {
            Some(JobStatus::Retrying)
        } else if crate::text::chars_eq_str(v.as_slice(), "completed") {
            Some(JobStatus::Completed)
        } else if crate::text::chars_eq_str(v.as_slice(), "failed") {
            Some(JobStatus::Failed)
        } else {
            None
        }
    }

    pub open spec fn is_terminal_spec(self) -> bool {
        self == JobStatus::Completed || self == JobStatus::Failed
    }

    pub fn is_terminal(self) -> (r: bool)
        ensures
            r == self.is_terminal_spec(),
    {
        matches!(self, JobStatus::Completed | JobStatus::Failed)
    }

    pub fn is_open(self) -> (r: bool)
        ensures
            r == !self.is_terminal_spec(),
    {
        !self.is_terminal()
    }
}

#[derive(Debug, Clone, Copy, PartialEq, Eq, Structural)]
pub struct JobSnapshot {
    pub status: JobStatus,
    pub attempt: u32,
}

impl JobSnapshot {
    pub fn pending() -> (s: JobSnapshot)
        ensures
            s == (JobSnapshot { status: JobStatus::Pending, attempt: 0 }),
    {
        JobSnapshot { status: JobStatus::Pending, attempt: 0 }
    }
}

/// What the worker does with the queue entry after applying durable state
/// for this event.
#[derive(Debug, Clone, Copy, PartialEq, Eq, Structural)]
pub enum DeliveryAction {
    /// Run the handler. Do not ACK yet.
    Execute,
    /// Already terminal: ACK the entry, do not change counters.
    AckSkip,
    /// Durable success recorded: ACK.
    AckComplete,
    /// Durable retry recorded: ACK the current entry; a new one is promoted
    /// after `delay_ms`.
    AckRetry { delay_ms: u64 },
    /// Durable failure recorded and copied to the dead-letter stream: ACK.
    AckDeadLetter,
    /// Malformed payload: copy to the dead-letter stream and ACK. Never
    /// execute.
    AckMalformed,
}

#[derive(Debug, Clone, Copy, PartialEq, Eq, Structural)]
pub enum JobEvent {
    /// An entry was delivered (new, delayed, or reclaimed).
    Deliver,
    Succeed,
    FailRetryable,
    FailPermanent,
    Malformed,
}

#[derive(Debug, Clone, Copy, PartialEq, Eq, Structural)]
pub struct DeliveryDecision {
    pub snapshot: JobSnapshot,
    pub action: DeliveryAction,
}

pub open spec fn decision(status: JobStatus, attempt: int, action: DeliveryAction) -> DeliveryDecision {
    DeliveryDecision { snapshot: JobSnapshot { status, attempt: attempt as u32 }, action }
}

/// The reducer's table. A terminal job absorbs every event but `Malformed`;
/// a delivery claims the next attempt unless the job is already processing
/// (a crash reclaim keeps its attempt); a retryable failure schedules a retry
/// while attempts remain.
pub open spec fn step_spec(
    current: JobSnapshot,
    event: JobEvent,
    policy: RetryPolicy,
    jitter_unit_ppm: u32,
) -> DeliveryDecision {
    let skip = DeliveryDecision { snapshot: current, action: DeliveryAction::AckSkip };
    match event {
        JobEvent::Malformed => DeliveryDecision { snapshot: current, action: DeliveryAction::AckMalformed },
        JobEvent::Deliver => match current.status {
            JobStatus::Completed | JobStatus::Failed => skip,
            JobStatus::Pending | JobStatus::Retrying => {
                let attempt = if current.attempt == u32::MAX { u32::MAX as int } else { current.attempt + 1 };
                if attempt > policy.max_attempts {
                    decision(JobStatus::Failed, attempt, DeliveryAction::AckDeadLetter)
                } else {
                    decision(JobStatus::Processing, attempt, DeliveryAction::Execute)
                }
            },
            JobStatus::Processing => if current.attempt == 0 {
                decision(JobStatus::Processing, 1, DeliveryAction::Execute)
            } else if current.attempt > policy.max_attempts {
                decision(JobStatus::Failed, current.attempt as int, DeliveryAction::AckDeadLetter)
            } else {
                DeliveryDecision { snapshot: current, action: DeliveryAction::Execute }
            },
        },
        JobEvent::Succeed => if current.status.is_terminal_spec() {
            skip
        } else {
            decision(JobStatus::Completed, current.attempt as int, DeliveryAction::AckComplete)
        },
        JobEvent::FailPermanent => if current.status.is_terminal_spec() {
            skip
        } else {
            decision(JobStatus::Failed, current.attempt as int, DeliveryAction::AckDeadLetter)
        },
        JobEvent::FailRetryable => if current.status.is_terminal_spec() {
            skip
        } else if current.attempt < policy.max_attempts {
            decision(
                JobStatus::Retrying,
                current.attempt as int,
                DeliveryAction::AckRetry {
                    delay_ms: backoff_spec(policy, current.attempt, jitter_unit_ppm) as u64,
                },
            )
        } else {
            decision(JobStatus::Failed, current.attempt as int, DeliveryAction::AckDeadLetter)
        },
    }
}

/// Pure reducer for job and queue-acknowledgement state.
pub fn step(current: JobSnapshot, event: JobEvent, policy: RetryPolicy, jitter_unit_ppm: u32) -> (d: DeliveryDecision)
    ensures
        d == step_spec(current, event, policy, jitter_unit_ppm),
{
    match event {
        JobEvent::Malformed => DeliveryDecision { snapshot: current, action: DeliveryAction::AckMalformed },
        JobEvent::Deliver => match current.status {
            JobStatus::Completed | JobStatus::Failed => DeliveryDecision {
                snapshot: current,
                action: DeliveryAction::AckSkip,
            },
            JobStatus::Pending | JobStatus::Retrying => {
                let attempt = current.attempt.saturating_add(1);
                if attempt > policy.max_attempts {
                    DeliveryDecision {
                        snapshot: JobSnapshot { status: JobStatus::Failed, attempt },
                        action: DeliveryAction::AckDeadLetter,
                    }
                } else {
                    DeliveryDecision {
                        snapshot: JobSnapshot { status: JobStatus::Processing, attempt },
                        action: DeliveryAction::Execute,
                    }
                }
            },
            JobStatus::Processing => {
                if current.attempt == 0 {
                    DeliveryDecision {
                        snapshot: JobSnapshot { status: JobStatus::Processing, attempt: 1 },
                        action: DeliveryAction::Execute,
                    }
                } else if current.attempt > policy.max_attempts {
                    DeliveryDecision {
                        snapshot: JobSnapshot { status: JobStatus::Failed, attempt: current.attempt },
                        action: DeliveryAction::AckDeadLetter,
                    }
                } else {
                    DeliveryDecision { snapshot: current, action: DeliveryAction::Execute }
                }
            },
        },
        JobEvent::Succeed => {
            if current.status.is_terminal() {
                DeliveryDecision { snapshot: current, action: DeliveryAction::AckSkip }
            } else {
                DeliveryDecision {
                    snapshot: JobSnapshot { status: JobStatus::Completed, attempt: current.attempt },
                    action: DeliveryAction::AckComplete,
                }
            }
        },
        JobEvent::FailPermanent => {
            if current.status.is_terminal() {
                DeliveryDecision { snapshot: current, action: DeliveryAction::AckSkip }
            } else {
                DeliveryDecision {
                    snapshot: JobSnapshot { status: JobStatus::Failed, attempt: current.attempt },
                    action: DeliveryAction::AckDeadLetter,
                }
            }
        },
        JobEvent::FailRetryable => {
            if current.status.is_terminal() {
                DeliveryDecision { snapshot: current, action: DeliveryAction::AckSkip }
            } else if policy.can_retry(current.attempt) {
                DeliveryDecision {
                    snapshot: JobSnapshot { status: JobStatus::Retrying, attempt: current.attempt },
                    action: DeliveryAction::AckRetry {
                        delay_ms: policy.backoff(current.attempt, jitter_unit_ppm),
                    },
                }
            } else {
                DeliveryDecision {
                    snapshot: JobSnapshot { status: JobStatus::Failed, attempt: current.attempt },
                    action: DeliveryAction::AckDeadLetter,
                }
            }
        },
    }
}

pub fn event_for_error(error: &JobError) -> (e: JobEvent)
    ensures
        e == (match error.retryability_spec() {
            Retryability::Retryable => JobEvent::FailRetryable,
            Retryability::Permanent => JobEvent::FailPermanent,
        }),
{
    match error.retryability() {
        Retryability::Retryable => JobEvent::FailRetryable,
        Retryability::Permanent => JobEvent::FailPermanent,
    }
}

/// A terminal job absorbs every redelivery and outcome: its snapshot stays
/// as it is and the entry is only acknowledged.
pub proof fn lemma_terminal_is_absorbing(
    current: JobSnapshot,
    event: JobEvent,
    policy: RetryPolicy,
    jitter_unit_ppm: u32,
)
    requires
        current.status.is_terminal_spec(),
        event != JobEvent::Malformed,
    ensures
        step_spec(current, event, policy, jitter_unit_ppm) == (DeliveryDecision {
            snapshot: current,
            action: DeliveryAction::AckSkip,
        }),
{
}

/// A malformed entry never changes the job and is never executed.
pub proof fn lemma_malformed_never_executes(current: JobSnapshot, policy: RetryPolicy, jitter_unit_ppm: u32)
    ensures
        step_spec(current, JobEvent::Malformed, policy, jitter_unit_ppm) == (DeliveryDecision {
            snapshot: current,
            action: DeliveryAction::AckMalformed,
        }),
{
}

/// The handler only runs on a processing job within its attempt budget, and
/// the attempt counter never goes back.
pub proof fn lemma_execute_within_budget(
    current: JobSnapshot,
    event: JobEvent,
    policy: RetryPolicy,
    jitter_unit_ppm: u32,
)
    requires
        policy.max_attempts >= 1,
    ensures
        ({
            let d = step_spec(current, event, policy, jitter_unit_ppm);
            &&& d.snapshot.attempt >= current.attempt
            &&& d.action == DeliveryAction::Execute ==> d.snapshot.status == JobStatus::Processing
                && 1 <= d.snapshot.attempt <= policy.max_attempts
        }),
{
}

/// A retry is scheduled only while attempts remain, and a job at its last
/// attempt that fails is dead-lettered.
pub proof fn lemma_retry_only_with_attempts_left(
    current: JobSnapshot,
    policy: RetryPolicy,
    jitter_unit_ppm: u32,
)
    requires
        !current.status.is_terminal_spec(),
    ensures
        ({
            let d = step_spec(current, JobEvent::FailRetryable, policy, jitter_unit_ppm);
            if current.attempt < policy.max_attempts {
                d.action is AckRetry && d.snapshot.status == JobStatus::Retrying
            } else {
                d.action == DeliveryAction::AckDeadLetter && d.snapshot.status == JobStatus::Failed
            }
        }),
{
}

/// Success and permanent failure are final: once applied, every later event
/// other than `Malformed` is skipped.
pub proof fn lemma_outcomes_are_final(
    current: JobSnapshot,
    outcome: JobEvent,
    later: JobEvent,
    policy: RetryPolicy,
    jitter_unit_ppm: u32,
)
    requires
        outcome == JobEvent::Succeed || outcome == JobEvent::FailPermanent,
        later != JobEvent::Malformed,
    ensures
        ({
            let d = step_spec(current, outcome, policy, jitter_unit_ppm);
            step_spec(d.snapshot, later, policy, jitter_unit_ppm).action == DeliveryAction::AckSkip
        }),
{
}

/// With no jitter, the backoff doubles per attempt from the initial value
/// and never exceeds the maximum backoff.
pub proof fn lemma_backoff_without_jitter(policy: RetryPolicy, attempt: u32)
    requires
        policy.jitter_ratio_ppm <= PPM,
    ensures
        backoff_spec(policy, attempt, PPM / 2) == capped_backoff(policy, attempt),
        capped_backoff(policy, attempt) <= policy.max_backoff_ms,
{
    let c = capped_backoff(policy, attempt);
    let r = policy.jitter_ratio_ppm as int;
    assert(min_int((PPM / 2) as int, PPM as int) == 500_000);
    assert((2 * 500_000 - 1_000_000) * r == 0) by (nonlinear_arith);
    assert(jitter_factor(policy, PPM / 2) == (PPM as int) * (PPM as int));
    assert(c * ((PPM as int) * (PPM as int)) / ((PPM as int) * (PPM as int)) == c) by (nonlinear_arith);
    let exp = min_int(if attempt >= 1 { attempt - 1 } else { 0 }, 16);
    assert(policy.initial_backoff_ms * pow2(exp as nat) >= 0) by (nonlinear_arith);
}

/// A retryable failure of a live job with attempts left schedules a retry
/// whose delay is the policy's backoff for the job's own attempt, keeping
/// that attempt. Without jitter the delay is the initial backoff doubled once
/// per earlier attempt (at most sixteen times), capped at the maximum; so the
/// wait grows with each attempt until the cap.
pub proof fn lemma_retry_waits_backoff_of_attempt(current: JobSnapshot, policy: RetryPolicy, jitter_unit_ppm: u32)
    requires
        !current.status.is_terminal_spec(),
        current.attempt < policy.max_attempts,
        policy.jitter_ratio_ppm <= PPM,
    ensures
        step_spec(current, JobEvent::FailRetryable, policy, jitter_unit_ppm) == (DeliveryDecision {
            snapshot: JobSnapshot { status: JobStatus::Retrying, attempt: current.attempt },
            action: DeliveryAction::AckRetry {
                delay_ms: backoff_spec(policy, current.attempt, jitter_unit_ppm) as u64,
            },
        }),
        ({
            let e: nat = if current.attempt == 0 {
                0
            } else if current.attempt - 1 <= 16 {
                (current.attempt - 1) as nat
            } else {
                16
            };
            let grown = policy.initial_backoff_ms * pow2(e);
            step_spec(current, JobEvent::FailRetryable, policy, PPM / 2).action == DeliveryAction::AckRetry {
                delay_ms: (if grown <= policy.max_backoff_ms { grown } else { policy.max_backoff_ms as int }) as u64,
            }
        }),
{
    lemma_backoff_without_jitter(policy, current.attempt);
}

/// Jitter keeps the backoff within `ratio` of the unjittered value.
pub proof fn lemma_backoff_jitter_bounds(policy: RetryPolicy, attempt: u32, jitter_unit_ppm: u32)
    requires
        policy.jitter_ratio_ppm <= PPM,
    ensures
        ({
            let c = capped_backoff(policy, attempt);
            let b = backoff_spec(policy, attempt, jitter_unit_ppm);
            let s = (PPM as int) * (PPM as int);
            &&& c * (s - (PPM as int) * policy.jitter_ratio_ppm) / s <= b
            &&& b <= c * (s + (PPM as int) * policy.jitter_ratio_ppm) / s
        }),
{
    let c = capped_backoff(policy, attempt);
    let s = (PPM as int) * (PPM as int);
    let r = policy.jitter_ratio_ppm as int;
    let f = jitter_factor(policy, jitter_unit_ppm);
    let u = min_int(jitter_unit_ppm as int, PPM as int);
    let exp = min_int(if attempt >= 1 { attempt - 1 } else { 0 }, 16);
    assert(policy.initial_backoff_ms * pow2(exp as nat) >= 0) by (nonlinear_arith);
    assert(c >= 0);
    assert(c <= u64::MAX);
    assert(s - 1_000_000 * r <= f <= s + 1_000_000 * r) by (nonlinear_arith)
        requires
            f == s + (2 * u - 1_000_000) * r,
            0 <= u <= 1_000_000,
            0 <= r,
    ;
    assert(f >= 0) by (nonlinear_arith)
        requires
            f >= s - 1_000_000 * r,
            r <= 1_000_000,
            s == 1_000_000_000_000,
    ;
    if f == 0 {
        assert(s - 1_000_000 * r == 0);
        assert(c * (s - 1_000_000 * r) / s == 0) by (nonlinear_arith)
            requires
                s - 1_000_000 * r == 0,
                s > 0,
        ;
        assert(c * f / s == 0) by (nonlinear_arith)
            requires
                f == 0,
                s > 0,
        ;
    }
    assert(c * (s - 1_000_000 * r) <= c * f <= c * (s + 1_000_000 * r)) by (nonlinear_arith)
        requires
            c >= 0,
            s - 1_000_000 * r <= f <= s + 1_000_000 * r,
    ;
    assert(c * (s - 1_000_000 * r) / s <= c * f / s) by (nonlinear_arith)
        requires
            c * (s - 1_000_000 * r) <= c * f,
            s > 0,
    ;
    assert(c * f / s <= c * (s + 1_000_000 * r) / s) by (nonlinear_arith)
        requires
            c * f <= c * (s + 1_000_000 * r),
            s > 0,
    ;
    assert(c * (s - 1_000_000 * r) / s <= u64::MAX) by (nonlinear_arith)
        requires
            0 <= c <= u64::MAX,
            0 <= s - 1_000_000 * r <= s,
            s > 0,
    ;
}

/// Child extraction counts of a batch, by job status.
#[derive(Debug, Clone, Copy, PartialEq, Eq, Structural)]
pub struct ChildCounts {
    pub pending: i64,
    pub processing: i64,
    pub retrying: i64,
    pub completed: i64,
    pub failed: i64,
}

impl ChildCounts {
    /// Some child is still pending, processing, or retrying.
    pub open spec fn has_open_spec(self) -> bool {
        self.pending > 0 || self.processing > 0 || self.retrying > 0
    }

    /// The batch status the counts imply: pending until any child starts,
    /// processing while any child is still open, and once all are done
    /// completed, partially completed, or failed by how many failed.
    pub open spec fn batch_status_spec(self) -> BatchStatus {
        if self.has_open_spec() {
            if self.processing <= 0 && self.retrying <= 0 && self.completed <= 0 && self.failed <= 0 {
                BatchStatus::Pending
            } else {
                BatchStatus::Processing
            }
        } else if self.failed <= 0 {
            if self.completed > 0 {
                BatchStatus::Completed
            } else {
                BatchStatus::Pending
            }
        } else if self.completed > 0 {
            BatchStatus::PartiallyCompleted
        } else {
            BatchStatus::Failed
        }
    }

    pub fn batch_status(&self) -> (s: BatchStatus)
        ensures
            s == self.batch_status_spec(),
    {
        if self.pending > 0 || self.processing > 0 || self.retrying > 0 {
            if self.processing <= 0 && self.retrying <= 0 && self.completed <= 0 && self.failed <= 0 {
                BatchStatus::Pending
            } else {
                BatchStatus::Processing
            }
        } else if self.failed <= 0 {
            if self.completed > 0 {
                BatchStatus::Completed
            } else {
                BatchStatus::Pending
            }
        } else if self.completed > 0 {
            BatchStatus::PartiallyCompleted
        } else {
            BatchStatus::Failed
        }
    }

    /// No child is open any more and at least one finished.
    pub fn is_terminal(&self) -> (r: bool)
        ensures
            r == (!self.has_open_spec() && (self.completed > 0 || self.failed > 0)),
    {
        !(self.pending > 0 || self.processing > 0 || self.retrying > 0) && (self.completed > 0
            || self.failed > 0)
    }
}

} // verus!
