use vstd::prelude::*;
use crate::backoff::{backoff_delay, backoff_spec};

verus! {

/// Why a publish did not go through.
#[derive(Debug, Clone, Copy, PartialEq, Eq, Structural)]
pub enum PublishError {
    /// The bus could not be reached; worth retrying.
    ConnectionFailed,
    /// No acknowledgement came in time; worth retrying with the same key.
    Timeout,
    /// The bus refused the record; never retried.
    Rejected,
}

/// How often and how patiently a publish is retried.
#[derive(Debug, Clone, Copy, PartialEq, Eq, Structural)]
pub struct RetryPolicy {
    pub max_attempts: u32,
    pub base_ms: u64,
    pub cap_ms: u64,
}

/// What to do after one attempt to publish.
#[derive(Debug, Clone, Copy, PartialEq, Eq, Structural)]
pub enum PublishAction {
    /// The bus acknowledged the record at this position.
    Delivered(u64),
    /// Send the same record again, with the same key, after this many ms.
    Retry(u64),
    /// Give up with this error.
    Fail(PublishError),
}

pub open spec fn retryable(e: PublishError) -> bool {
    e != PublishError::Rejected
}

pub fn is_retryable(e: PublishError) -> (r: bool)
    ensures
        r == retryable(e),
{
    match e {
        PublishError::Rejected => false,
        _ => true,
    }
}

/// Decides, after attempt number `attempt` (from zero) came back with
/// `result`, whether the publish is done, retried or abandoned.
pub fn after_send(policy: RetryPolicy, attempt: u32, result: Result<u64, PublishError>) -> (r:
    PublishAction)
    ensures
        match result {
            Ok(o) => r == PublishAction::Delivered(o),
            Err(e) => if retryable(e) && attempt as int + 1 < policy.max_attempts {
                r == PublishAction::Retry(backoff_spec(policy.base_ms, attempt, policy.cap_ms))
            } else {
                r == PublishAction::Fail(e)
            },
        },
{
    match result {
        Ok(o) => PublishAction::Delivered(o),
        Err(e) => {
            if is_retryable(e) && attempt < policy.max_attempts && attempt + 1 < policy.max_attempts {
                PublishAction::Retry(backoff_delay(policy.base_ms, attempt, policy.cap_ms))
            } else {
                PublishAction::Fail(e)
            }
        },
    }
}

} // verus!
