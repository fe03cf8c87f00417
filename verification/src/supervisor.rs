//! The drain policy: once the worker has finished, the bridge keeps serving
//! long enough for a polling browser to fetch the final output, then lets the
//! process exit. The decision is a pure function of the elapsed times; the
//! shell around the library measures them and sleeps between evaluations.

use vstd::prelude::*;

verus! {

/// Milliseconds to wait before exiting when no browser request was ever seen.
pub const NO_ACTIVITY_TIMEOUT_MS: u64 = 10_000;

/// Minimum drain time after the worker finished, activity or not.
pub const MIN_DRAIN_MS: u64 = 3_000;

/// Grace period after the most recent observed browser request.
pub const GRACE_PERIOD_MS: u64 = 5_000;

/// Hard ceiling on the drain, whatever the activity.
pub const MAX_DRAIN_MS: u64 = 30_000;

/// The exit decision during the drain. `elapsed_ms` is the time since the
/// worker finished; `since_last_ms` the time since the most recent inbound
/// request (meaningful only when `seen_activity`). Exit when the browser
/// never connected and the no-activity timeout has passed; or when activity
/// was seen, the minimum drain has passed and the last activity is older than
/// the grace period; or unconditionally at the ceiling.
pub open spec fn should_exit_spec(seen_activity: bool, elapsed_ms: u64, since_last_ms: u64) -> bool {
    ||| (!seen_activity && elapsed_ms > NO_ACTIVITY_TIMEOUT_MS)
    ||| (seen_activity && elapsed_ms >= MIN_DRAIN_MS && since_last_ms > GRACE_PERIOD_MS)
    ||| elapsed_ms > MAX_DRAIN_MS
}

/// Evaluates the drain-exit policy.
pub fn should_exit(seen_activity: bool, elapsed_ms: u64, since_last_ms: u64) -> (r: bool)
    ensures
        r == should_exit_spec(seen_activity, elapsed_ms, since_last_ms),
{
    if !seen_activity && elapsed_ms > NO_ACTIVITY_TIMEOUT_MS {
        true
    } else if seen_activity && elapsed_ms >= MIN_DRAIN_MS && since_last_ms > GRACE_PERIOD_MS {
        true
    } else {
        elapsed_ms > MAX_DRAIN_MS
    }
}

/// If no request ever arrives, the policy orders the exit as soon as the
/// no-activity timeout has elapsed after the worker finished.
pub proof fn lemma_exit_without_activity(elapsed_ms: u64, since_last_ms: u64)
    requires
        elapsed_ms > NO_ACTIVITY_TIMEOUT_MS,
    ensures
        should_exit_spec(false, elapsed_ms, since_last_ms),
{
}

/// While requests keep arriving at intervals shorter than the grace period,
/// the policy keeps the process alive — up to the hard ceiling.
pub proof fn lemma_stays_while_active(elapsed_ms: u64, since_last_ms: u64)
    requires
        since_last_ms <= GRACE_PERIOD_MS,
        elapsed_ms <= MAX_DRAIN_MS,
    ensures
        !should_exit_spec(true, elapsed_ms, since_last_ms),
{
}

/// Whatever the activity, the policy never keeps the process alive past the
/// hard ceiling.
pub proof fn lemma_exit_at_ceiling(seen_activity: bool, elapsed_ms: u64, since_last_ms: u64)
    requires
        elapsed_ms > MAX_DRAIN_MS,
    ensures
        should_exit_spec(seen_activity, elapsed_ms, since_last_ms),
{
}

} // verus!
