//! The upload protocol: idempotency against the existing release assets,
//! outcome classification, the exponential backoff policy, and the retry
//! loop, modelled as a function of the sequence of attempt outcomes.

use vstd::prelude::*;
use crate::byteseq::eq_bytes;
use crate::registry::lemma_deep_is_view;

verus! {

/// The retry policy: a base delay and a bounded number of retries.
#[derive(Clone, Copy, PartialEq, Eq, Structural, Debug)]
pub struct BackoffPolicy {
    pub max_retries: u64,
    pub base_delay_ms: u64,
}

/// What one upload attempt came back with: an HTTP status, or a transport
/// error that is or is not retryable.
#[derive(Clone, Copy, PartialEq, Eq, Structural, Debug)]
pub enum AttemptOutcome {
    Status(u16),
    Transport { retryable: bool },
}

/// How an attempt outcome is treated.
#[derive(Clone, Copy, PartialEq, Eq, Structural, Debug)]
pub enum OutcomeClass {
    Success,
    Transient,
    Terminal,
}

/// The classification rule: the rate-limit status and retryable transport
/// conditions are transient, success statuses succeed, all else is terminal.
pub open spec fn spec_classify_outcome(o: AttemptOutcome) -> OutcomeClass {
    match o {
        AttemptOutcome::Status(s) => if s == 403 {
            OutcomeClass::Transient
        } else if 200 <= s < 300 {
            OutcomeClass::Success
        } else {
            OutcomeClass::Terminal
        },
        AttemptOutcome::Transport { retryable } => if retryable {
            OutcomeClass::Transient
        } else {
            OutcomeClass::Terminal
        },
    }
}

/// Classify one attempt outcome.
pub fn classify_outcome(o: &AttemptOutcome) -> (r: OutcomeClass)
    ensures
        r == spec_classify_outcome(*o),
{
    match o {
        AttemptOutcome::Status(s) => {
            if *s == 403 {
                OutcomeClass::Transient
            } else if 200 <= *s && *s < 300 {
                OutcomeClass::Success
            } else {
                OutcomeClass::Terminal
            }
        },
        AttemptOutcome::Transport { retryable } => {
            if *retryable {
                OutcomeClass::Transient
            } else {
                OutcomeClass::Terminal
            }
        },
    }
}

/// The delay before retry `n`: the base delay doubled `n` times, saturating.
pub open spec fn spec_backoff_delay(base: u64, n: nat) -> u64
    decreases n,
{
    if n == 0 {
        base
    } else {
        let d = spec_backoff_delay(base, (n - 1) as nat);
        if d > u64::MAX / 2 {
            u64::MAX
        } else {
            (d * 2) as u64
        }
    }
}

/// Whether to retry after `n_past_retries` failed attempts, and after what
/// delay.
#[derive(Clone, Copy, PartialEq, Eq, Structural, Debug)]
pub enum RetryDecision {
    Retry { delay_ms: u64 },
    Stop,
}

/// Consult the backoff policy.
pub fn should_retry(policy: &BackoffPolicy, n_past_retries: u64) -> (r: RetryDecision)
    ensures
        n_past_retries < policy.max_retries ==> r == (RetryDecision::Retry {
            delay_ms: spec_backoff_delay(policy.base_delay_ms, n_past_retries as nat),
        }),
        n_past_retries >= policy.max_retries ==> r == RetryDecision::Stop,
{
    if n_past_retries >= policy.max_retries {
        return RetryDecision::Stop;
    }
    let mut delay: u64 = policy.base_delay_ms;
    let mut i: u64 = 0;
    while i < n_past_retries
        invariant
            i <= n_past_retries,
            delay == spec_backoff_delay(policy.base_delay_ms, i as nat),
        decreases n_past_retries - i,
    {
        if delay > u64::MAX / 2 {
            delay = u64::MAX;
        } else {
            delay = delay * 2;
        }
        i = i + 1;
    }
    RetryDecision::Retry { delay_ms: delay }
}

/// `d` is one of the names in `existing`.
pub open spec fn name_present(existing: Seq<Seq<u8>>, d: Seq<u8>) -> bool {
    exists|k: int| 0 <= k < existing.len() && existing[k] == d
}

/// Whether the release already has an asset named `dest`.
pub fn asset_already_present(existing: &Vec<Vec<u8>>, dest: &Vec<u8>) -> (r: bool)
    ensures
        r == name_present(existing.deep_view(), dest@),
{
    let mut k: usize = 0;
    while k < existing.len()
        invariant
            k <= existing@.len(),
            forall|j: int| 0 <= j < k ==> existing@[j]@ != dest@,
        decreases existing.len() - k,
    {
        if eq_bytes(&existing[k], dest) {
            proof {
                lemma_deep_is_view(existing@[k as int]);
                assert(existing.deep_view()[k as int] == dest@);
            }
            return true;
        }
        k = k + 1;
    }
    proof {
        assert forall|j: int| 0 <= j < existing.deep_view().len() implies existing.deep_view()[j]
            != dest@ by {
            lemma_deep_is_view(existing@[j]);
        }
    }
    false
}

/// The result of one upload of one asset.
#[derive(Clone, Copy, PartialEq, Eq, Structural, Debug)]
pub enum UploadResult {
    /// The destination name already exists; nothing was sent.
    AlreadyPresent,
    /// A dry run: all checks were made, no bytes were sent.
    DryRun,
    /// The upload succeeded on this many attempts.
    Uploaded { attempts: u64 },
    /// The upload failed after this many attempts.
    Failed { attempts: u64 },
}

/// Exactly when `r` is the result of running the upload protocol: attempts
/// are made in order, every attempt before the last was transient, and the
/// last is a success, a terminal failure, or the exhaustion of the policy.
pub open spec fn upload_protocol_post(
    policy: BackoffPolicy,
    existing: Seq<Seq<u8>>,
    dest: Seq<u8>,
    outcomes: Seq<AttemptOutcome>,
    dry_run: bool,
    r: UploadResult,
) -> bool {
    if name_present(existing, dest) {
        r == UploadResult::AlreadyPresent
    } else if dry_run {
        r == UploadResult::DryRun
    } else {
        match r {
            UploadResult::Uploaded { attempts } => {
                &&& 1 <= attempts <= policy.max_retries + 1
                &&& spec_classify_outcome(outcomes[attempts - 1]) == OutcomeClass::Success
                &&& forall|j: int|
                    0 <= j < attempts - 1 ==> spec_classify_outcome(outcomes[j])
                        == OutcomeClass::Transient
            },
            UploadResult::Failed { attempts } => {
                &&& 1 <= attempts <= policy.max_retries + 1
                &&& forall|j: int|
                    0 <= j < attempts - 1 ==> spec_classify_outcome(outcomes[j])
                        == OutcomeClass::Transient
                &&& (spec_classify_outcome(outcomes[attempts - 1]) == OutcomeClass::Terminal || (
                spec_classify_outcome(outcomes[attempts - 1]) == OutcomeClass::Transient
                    && attempts == policy.max_retries + 1))
            },
            _ => false,
        }
    }
}

/// Run the upload protocol for one asset against a script of attempt
/// outcomes: skip when the destination name already exists, send nothing on
/// a dry run, and otherwise attempt, classify, and retry under the policy.
pub fn simulate_upload(
    existing: &Vec<Vec<u8>>,
    dest: &Vec<u8>,
    outcomes: &Vec<AttemptOutcome>,
    policy: &BackoffPolicy,
    dry_run: bool,
) -> (r: UploadResult)
    requires
        policy.max_retries + 1 <= outcomes@.len(),
    ensures
        upload_protocol_post(*policy, existing.deep_view(), dest@, outcomes@, dry_run, r),
{
    if asset_already_present(existing, dest) {
        return UploadResult::AlreadyPresent;
    }
    if dry_run {
        return UploadResult::DryRun;
    }
    let len = outcomes.len();
    let mut n: u64 = 0;
    while n <= policy.max_retries
        invariant
            n <= policy.max_retries,
            policy.max_retries + 1 <= outcomes@.len(),
            outcomes@.len() == len,
            !name_present(existing.deep_view(), dest@),
            !dry_run,
            forall|j: int|
                0 <= j < n ==> spec_classify_outcome(outcomes@[j]) == OutcomeClass::Transient,
        decreases policy.max_retries - n,
    {
        let o = outcomes[n as usize];
        match classify_outcome(&o) {
            OutcomeClass::Success => {
                return UploadResult::Uploaded { attempts: n + 1 };
            },
            OutcomeClass::Terminal => {
                return UploadResult::Failed { attempts: n + 1 };
            },
            OutcomeClass::Transient => {
                match should_retry(policy, n) {
                    RetryDecision::Retry { delay_ms: _ } => {
                        n = n + 1;
                    },
                    RetryDecision::Stop => {
                        return UploadResult::Failed { attempts: n + 1 };
                    },
                }
            },
        }
    }
    proof {
        assert(false);
    }
    UploadResult::Failed { attempts: 0 }
}

/// Retry bound, exhaustion half: a target that answers every attempt with a
/// transient failure is retried exactly the policy's maximum and then fails.
pub proof fn lemma_retry_exhaustion(
    policy: BackoffPolicy,
    existing: Seq<Seq<u8>>,
    dest: Seq<u8>,
    outcomes: Seq<AttemptOutcome>,
    r: UploadResult,
)
    requires
        upload_protocol_post(policy, existing, dest, outcomes, false, r),
        !name_present(existing, dest),
        policy.max_retries + 1 <= outcomes.len(),
        forall|j: int|
            0 <= j < outcomes.len() ==> spec_classify_outcome(outcomes[j])
                == OutcomeClass::Transient,
    ensures
        r == (UploadResult::Failed { attempts: (policy.max_retries + 1) as u64 }),
{
    match r {
        UploadResult::Uploaded { attempts } => {
            assert(spec_classify_outcome(outcomes[attempts - 1]) == OutcomeClass::Transient);
        },
        UploadResult::Failed { attempts } => {
            assert(spec_classify_outcome(outcomes[attempts - 1]) == OutcomeClass::Transient);
        },
        _ => {},
    }
}

/// Retry bound, success half: a target that answers the first `k - 1`
/// attempts with a transient failure and attempt `k` with success succeeds
/// overall after exactly `k` attempts.
pub proof fn lemma_retry_succeeds_at(
    policy: BackoffPolicy,
    existing: Seq<Seq<u8>>,
    dest: Seq<u8>,
    outcomes: Seq<AttemptOutcome>,
    r: UploadResult,
    k: u64,
)
    requires
        upload_protocol_post(policy, existing, dest, outcomes, false, r),
        !name_present(existing, dest),
        policy.max_retries + 1 <= outcomes.len(),
        1 <= k <= policy.max_retries + 1,
        spec_classify_outcome(outcomes[k - 1]) == OutcomeClass::Success,
        forall|j: int|
            0 <= j < k - 1 ==> spec_classify_outcome(outcomes[j]) == OutcomeClass::Transient,
    ensures
        r == (UploadResult::Uploaded { attempts: k }),
{
    match r {
        UploadResult::Uploaded { attempts } => {
            if attempts < k {
                assert(spec_classify_outcome(outcomes[attempts - 1]) == OutcomeClass::Transient);
            }
            if attempts > k {
                assert(spec_classify_outcome(outcomes[k - 1]) == OutcomeClass::Transient);
            }
        },
        UploadResult::Failed { attempts } => {
            if attempts - 1 < k - 1 {
                assert(spec_classify_outcome(outcomes[attempts - 1]) == OutcomeClass::Transient);
                assert(attempts == policy.max_retries + 1);
            } else if attempts - 1 == k - 1 {
                assert(spec_classify_outcome(outcomes[attempts - 1]) == OutcomeClass::Success);
            } else {
                assert(spec_classify_outcome(outcomes[k - 1]) == OutcomeClass::Transient);
            }
        },
        _ => {},
    }
}

} // verus!
