//! Endpoint-availability polling policy.
//!
//! Waiting for an HTTP endpoint is a loop of outside calls; only the
//! decisions are logic. The caller performs each call and hands the outcome
//! back; this module decides, from the policy and the attempt count alone,
//! whether the endpoint is available, whether to retry after a delay, or
//! whether the retries are exhausted.
use vstd::prelude::*;
use crate::bytes::bytes_eq;

verus! {

/// How long to keep polling an endpoint, and what counts as available.
pub struct WaitPolicy {
    /// Milliseconds to wait before the first call.
    pub initial_delay_milliseconds: u32,
    /// Number of retries after the first call.
    pub retries: u32,
    /// Milliseconds to wait between retries.
    pub retries_delay_milliseconds: u32,
    /// Body the endpoint must return to count as available; any response
    /// counts when absent.
    pub expected_body: Option<Vec<u8>>,
}

/// What one poll of the endpoint observed: the response body, or no
/// response at all.
pub struct PollOutcome {
    pub response_body: Option<Vec<u8>>,
}

/// What to do after one poll.
pub enum WaitDecision {
    /// The endpoint is available; stop polling.
    Available,
    /// Poll again after this many milliseconds.
    RetryAfter { delay_milliseconds: u32 },
    /// Retries exhausted; the endpoint never became available.
    Unavailable,
}

/// The observed outcome satisfies the policy: a response arrived, and it
/// carries the expected body when one is required.
pub open spec fn outcome_matches(policy: WaitPolicy, outcome: PollOutcome) -> bool {
    outcome.response_body matches Some(body) && (match policy.expected_body {
        Some(expected) => body@ == expected@,
        None => true,
    })
}

/// Decide what follows the `attempts_made`-th poll (1-based): available on
/// a matching response; otherwise retry after the configured delay until
/// the first call plus `retries` retries are used up, then fail.
pub fn wait_decide(policy: &WaitPolicy, attempts_made: u32, outcome: &PollOutcome) -> (r:
    WaitDecision)
    requires
        attempts_made >= 1,
    ensures
        r is Available <==> outcome_matches(*policy, *outcome),
        !outcome_matches(*policy, *outcome) && attempts_made <= policy.retries ==> r
            == (WaitDecision::RetryAfter { delay_milliseconds: policy.retries_delay_milliseconds }),
        !outcome_matches(*policy, *outcome) && attempts_made > policy.retries ==> r
            == WaitDecision::Unavailable,
{
    let matches_policy: bool = match &outcome.response_body {
        Some(body) => match &policy.expected_body {
            Some(expected) => bytes_eq(body, expected),
            None => true,
        },
        None => false,
    };
    if matches_policy {
        WaitDecision::Available
    } else if attempts_made <= policy.retries {
        WaitDecision::RetryAfter { delay_milliseconds: policy.retries_delay_milliseconds }
    } else {
        WaitDecision::Unavailable
    }
}

} // verus!
