//! When and how soon a request to S3 is tried again.
use crate::error::{AwsError, AwsErrorView};
use crate::text::{contains, find, is_within, lemma_within};
use std::time::{Duration, SystemTime, SystemTimeError};
use vstd::arithmetic::power2::pow2;
use vstd::prelude::*;
use vstd::string::*;

verus! {

/// The number of times that one S3 request is tried, the first time included.
pub const S3_MAX_ATTEMPTS: u32 = 10;

/// The longest wait, in milliseconds, before the first retry.
pub const S3_BACKOFF_BASE_MS: u64 = 100;

/// The longest wait, in milliseconds, before any retry.
pub const S3_BACKOFF_CAP_MS: u64 = 20_000;

/// A moment of the system clock.
#[verifier::external_type_specification]
#[verifier::external_body]
pub struct ExSystemTime(SystemTime);

/// That one moment is not after another.
#[verifier::external_type_specification]
#[verifier::external_body]
pub struct ExSystemTimeError(SystemTimeError);

/// `SystemTime::now` reads the system clock; nothing is known of the moment.
pub assume_specification[ SystemTime::now ]() -> SystemTime
;

/// `SystemTime::duration_since` gives the time between two moments; nothing is known of it.
pub assume_specification[ SystemTime::duration_since ](
    time: &SystemTime,
    earlier: SystemTime,
) -> Result<Duration, SystemTimeError>
;

/// `Duration::subsec_nanos` gives the fractional part of a duration in nanoseconds, always less
/// than a second.
pub assume_specification[ Duration::subsec_nanos ](d: &Duration) -> (n: u32)
    ensures
        n < 1_000_000_000,
;

/// The moment at which 1970 began: `SystemTime::UNIX_EPOCH`; nothing is stated of it.
#[verifier::external_body]
fn unix_epoch() -> (r: SystemTime) {
    SystemTime::UNIX_EPOCH
}

/// The duration of a number of milliseconds.
pub uninterp spec fn milliseconds(ms: u64) -> Duration;

/// `Duration::from_millis` makes a duration of the given number of milliseconds.
pub assume_specification[ Duration::from_millis ](ms: u64) -> (d: Duration)
    ensures
        d == milliseconds(ms),
;

/// A failure that may pass: no answer, too many requests, a server's own failure, or a body that
/// names one of S3's transient errors.
pub open spec fn retryable(e: AwsErrorView) -> bool {
    ||| e.status == 0
    ||| e.status == 429
    ||| 500 <= e.status <= 504
    ||| find(e.body, "RequestTimeout"@) is Some
    ||| find(e.body, "SlowDown"@) is Some
    ||| find(e.body, "ServiceUnavailable"@) is Some
    ||| find(e.body, "InternalError"@) is Some
}

/// Whether the failure may pass, so that the request should be tried again.
pub fn is_s3_retryable(err: &AwsError) -> (r: bool)
    ensures
        r == retryable(err@),
{
    if err.status == 0 {
        return true;
    }
    if err.status == 429 {
        return true;
    }
    if 500 <= err.status && err.status <= 504 {
        return true;
    }
    contains(err.body.as_str(), "RequestTimeout") || contains(err.body.as_str(), "SlowDown")
        || contains(err.body.as_str(), "ServiceUnavailable") || contains(
        err.body.as_str(),
        "InternalError",
    )
}

/// The longest wait, in milliseconds, after attempt number `attempt`, counted from 0: the base,
/// doubled with every attempt, up to the cap.
pub open spec fn backoff_ceiling(attempt: nat) -> nat {
    if S3_BACKOFF_BASE_MS * pow2(attempt) < S3_BACKOFF_CAP_MS {
        (S3_BACKOFF_BASE_MS * pow2(attempt)) as nat
    } else {
        S3_BACKOFF_CAP_MS as nat
    }
}

/// The longest wait, in milliseconds, after attempt number `attempt`.
pub fn s3_backoff_ceiling(attempt: u32) -> (ms: u64)
    ensures
        ms == backoff_ceiling(attempt as nat),
{
    proof {
        vstd::arithmetic::power2::lemma2_to64();
        if attempt >= 8 {
            if attempt > 8 {
                vstd::arithmetic::power2::lemma_pow2_strictly_increases(8, attempt as nat);
            }
            assert(S3_BACKOFF_BASE_MS * pow2(attempt as nat) >= S3_BACKOFF_CAP_MS)
                by (nonlinear_arith)
                requires
                    pow2(attempt as nat) >= 256,
            ;
        }
    }
    let mut ms: u64 = S3_BACKOFF_BASE_MS;
    let mut i: u32 = 0;
    while i < attempt && ms < S3_BACKOFF_CAP_MS
        invariant
            i <= attempt,
            ms == S3_BACKOFF_BASE_MS * pow2(i as nat),
            ms < 2 * S3_BACKOFF_CAP_MS,
        decreases attempt - i,
    {
        proof {
            vstd::arithmetic::power2::lemma_pow2_unfold((i + 1) as nat);
        }
        ms = ms * 2;
        i += 1;
    }
    proof {
        if i < attempt {
            vstd::arithmetic::power2::lemma_pow2_strictly_increases(i as nat, attempt as nat);
            assert(S3_BACKOFF_BASE_MS * pow2(attempt as nat) >= S3_BACKOFF_BASE_MS * pow2(i as nat))
                by (nonlinear_arith)
                requires
                    pow2(attempt as nat) >= pow2(i as nat),
            ;
        }
    }
    if ms < S3_BACKOFF_CAP_MS {
        ms
    } else {
        S3_BACKOFF_CAP_MS
    }
}

/// A number of milliseconds up to `max_ms` that a reading of the clock picks.
pub open spec fn picked_ms(nanos: nat, max_ms: nat) -> nat {
    nanos % (max_ms + 1)
}

/// Picks a number of milliseconds up to `max_ms` by the nanoseconds that the clock shows.
pub fn pick_ms(nanos: u32, max_ms: u64) -> (ms: u64)
    requires
        max_ms < u64::MAX,
    ensures
        ms == picked_ms(nanos as nat, max_ms as nat),
        ms <= max_ms,
{
    if max_ms == 0 {
        return 0;
    }
    (nanos as u64) % (max_ms + 1)
}

/// A random number of milliseconds up to `max_ms`.
pub fn jitter_ms(max_ms: u64) -> (ms: u64)
    requires
        max_ms < u64::MAX,
    ensures
        ms <= max_ms,
        exists|nanos: nat| nanos < 1_000_000_000 && ms == #[trigger] picked_ms(nanos, max_ms as nat),
{
    let nanos: u32 = match SystemTime::now().duration_since(unix_epoch()) {
        Ok(d) => d.subsec_nanos(),
        Err(_) => 0,
    };
    let ms = pick_ms(nanos, max_ms);
    assert(ms == picked_ms(nanos as nat, max_ms as nat));
    ms
}

/// How long to wait after attempt number `attempt`: a random time between nothing and the ceiling
/// of the exponential backoff.
pub fn s3_backoff_delay(attempt: u32) -> (d: Duration)
    ensures
        exists|ms: u64, nanos: nat|
            {
                &&& ms <= backoff_ceiling(attempt as nat)
                &&& nanos < 1_000_000_000
                &&& ms == #[trigger] picked_ms(nanos, backoff_ceiling(attempt as nat))
                &&& d == #[trigger] milliseconds(ms)
            },
{
    let ceiling = s3_backoff_ceiling(attempt);
    let ms = jitter_ms(ceiling);
    let d = Duration::from_millis(ms);
    assert(d == milliseconds(ms));
    d
}

/// What to do after an attempt at an S3 request.
#[derive(Debug, Clone, Copy, PartialEq, Eq)]
pub enum Retry {
    /// Try once more, after a wait.
    Again,
    /// Hand the outcome on.
    Done,
}

/// What to do after attempt number `attempt`, counted from 0, which failed with `failure` or
/// succeeded.
pub open spec fn retry_after(attempt: u32, failure: Option<AwsErrorView>) -> Retry {
    match failure {
        Some(e) => if retryable(e) && attempt + 1 < S3_MAX_ATTEMPTS {
            Retry::Again
        } else {
            Retry::Done
        },
        None => Retry::Done,
    }
}

/// What to do after a failed attempt.
pub fn s3_retry(attempt: u32, failure: &AwsError) -> (r: Retry)
    ensures
        r == retry_after(attempt, Some(failure@)),
{
    if attempt < S3_MAX_ATTEMPTS - 1 && is_s3_retryable(failure) {
        Retry::Again
    } else {
        Retry::Done
    }
}

/// The failure of an attempt, if it failed.
pub open spec fn failure_of<T>(outcome: Result<T, AwsErrorView>) -> Option<AwsErrorView> {
    match outcome {
        Ok(_) => None,
        Err(e) => Some(e),
    }
}

/// The attempt failed, but the failure may pass.
pub open spec fn fails_in_passing<T>(outcome: Result<T, AwsErrorView>) -> bool {
    outcome matches Err(e) && retryable(e)
}

/// The number of attempts, counted on from attempt number `attempt`, that are made at a request
/// whose attempts end as `outcomes` tells.
pub open spec fn attempts_made<T>(
    attempt: u32,
    outcomes: spec_fn(u32) -> Result<T, AwsErrorView>,
) -> nat
    decreases S3_MAX_ATTEMPTS - attempt,
{
    if attempt < S3_MAX_ATTEMPTS && retry_after(attempt, failure_of(outcomes(attempt))) is Again {
        1 + attempts_made((attempt + 1) as u32, outcomes)
    } else {
        1
    }
}

/// What is handed on of a request whose attempts, from attempt number `attempt` on, end as
/// `outcomes` tells: the first outcome after which it is not tried again.
pub open spec fn handed_on<T>(
    attempt: u32,
    outcomes: spec_fn(u32) -> Result<T, AwsErrorView>,
) -> Result<T, AwsErrorView>
    decreases S3_MAX_ATTEMPTS - attempt,
{
    if attempt < S3_MAX_ATTEMPTS && retry_after(attempt, failure_of(outcomes(attempt))) is Again {
        handed_on((attempt + 1) as u32, outcomes)
    } else {
        outcomes(attempt)
    }
}

/// However its attempts end, a request is tried at most [`S3_MAX_ATTEMPTS`] times, and the outcome
/// of the last attempt is handed on. All attempts before the last fail in passing; the last one
/// does not, unless it is the last that may be made.
pub proof fn law_attempts_are_bounded<T>(outcomes: spec_fn(u32) -> Result<T, AwsErrorView>)
    ensures
        1 <= attempts_made(0, outcomes) <= S3_MAX_ATTEMPTS,
        handed_on(0, outcomes) == outcomes((attempts_made(0, outcomes) - 1) as u32),
        forall|i: u32|
            i < attempts_made(0, outcomes) - 1 ==> fails_in_passing(#[trigger] outcomes(i)),
        attempts_made(0, outcomes) < S3_MAX_ATTEMPTS ==> !fails_in_passing(handed_on(0, outcomes)),
{
    lemma_attempts(0, outcomes);
}

/// Where the first `k` attempts fail in passing and the next one does not, `k + 1` attempts are
/// made, and the outcome of the last is handed on.
pub proof fn law_request_is_tried_until_it_ends<T>(
    outcomes: spec_fn(u32) -> Result<T, AwsErrorView>,
    k: u32,
)
    requires
        k < S3_MAX_ATTEMPTS,
        forall|i: u32| i < k ==> fails_in_passing(#[trigger] outcomes(i)),
        !fails_in_passing(outcomes(k)),
    ensures
        attempts_made(0, outcomes) == k + 1,
        handed_on(0, outcomes) == outcomes(k),
{
    lemma_tried_until(0, outcomes, k);
}

/// Where every attempt that may be made fails in passing, all of them are made, and the outcome of
/// the last is handed on.
pub proof fn law_request_is_given_up<T>(outcomes: spec_fn(u32) -> Result<T, AwsErrorView>)
    requires
        forall|i: u32| i < S3_MAX_ATTEMPTS ==> fails_in_passing(#[trigger] outcomes(i)),
    ensures
        attempts_made(0, outcomes) == S3_MAX_ATTEMPTS,
        handed_on(0, outcomes) == outcomes((S3_MAX_ATTEMPTS - 1) as u32),
{
    lemma_tried_until(0, outcomes, (S3_MAX_ATTEMPTS - 1) as u32);
}

/// The attempts from attempt number `attempt` on.
proof fn lemma_attempts<T>(attempt: u32, outcomes: spec_fn(u32) -> Result<T, AwsErrorView>)
    requires
        attempt < S3_MAX_ATTEMPTS,
    ensures
        ({
            let made = attempts_made(attempt, outcomes);
            &&& 1 <= made <= S3_MAX_ATTEMPTS - attempt
            &&& handed_on(attempt, outcomes) == outcomes((attempt + made - 1) as u32)
            &&& forall|i: u32|
                attempt <= i < attempt + made - 1 ==> fails_in_passing(#[trigger] outcomes(i))
            &&& attempt + made < S3_MAX_ATTEMPTS ==> !fails_in_passing(
                handed_on(attempt, outcomes),
            )
        }),
    decreases S3_MAX_ATTEMPTS - attempt,
{
    if retry_after(attempt, failure_of(outcomes(attempt))) is Again {
        lemma_attempts((attempt + 1) as u32, outcomes);
    }
}

/// The attempts from attempt number `attempt` on, where attempt number `k` is the last.
proof fn lemma_tried_until<T>(
    attempt: u32,
    outcomes: spec_fn(u32) -> Result<T, AwsErrorView>,
    k: u32,
)
    requires
        attempt <= k < S3_MAX_ATTEMPTS,
        forall|i: u32| i < k ==> fails_in_passing(#[trigger] outcomes(i)),
        !fails_in_passing(outcomes(k)) || k == S3_MAX_ATTEMPTS - 1,
    ensures
        attempts_made(attempt, outcomes) == k + 1 - attempt,
        handed_on(attempt, outcomes) == outcomes(k),
    decreases k - attempt,
{
    if attempt < k {
        assert(fails_in_passing(outcomes(attempt)));
        lemma_tried_until((attempt + 1) as u32, outcomes, k);
    }
}

/// The wait before a retry never exceeds the cap, and its ceiling doubles with every attempt until
/// the cap is reached.
pub proof fn law_backoff_grows_to_the_cap(attempt: nat)
    ensures
        backoff_ceiling(attempt) <= S3_BACKOFF_CAP_MS,
        backoff_ceiling(attempt) <= backoff_ceiling(attempt + 1),
        backoff_ceiling(attempt + 1) < S3_BACKOFF_CAP_MS ==> backoff_ceiling(attempt + 1) == 2
            * backoff_ceiling(attempt),
        backoff_ceiling(0) == S3_BACKOFF_BASE_MS,
{
    vstd::arithmetic::power2::lemma2_to64();
    vstd::arithmetic::power2::lemma_pow2_unfold(attempt + 1);
}

/// A failure may pass exactly where there was no answer, where the status tells of too many
/// requests or of a failure of the server (500 to 504), or where the body names one of four errors.
pub proof fn law_passing_failures(e: AwsErrorView)
    ensures
        retryable(e) <==> {
            ||| e.status == 0 || e.status == 429 || e.status == 500 || e.status == 501
            ||| e.status == 502 || e.status == 503 || e.status == 504
            ||| is_within("RequestTimeout"@, e.body)
            ||| is_within("SlowDown"@, e.body)
            ||| is_within("ServiceUnavailable"@, e.body)
            ||| is_within("InternalError"@, e.body)
        },
{
    lemma_within("RequestTimeout"@, e.body);
    lemma_within("SlowDown"@, e.body);
    lemma_within("ServiceUnavailable"@, e.body);
    lemma_within("InternalError"@, e.body);
}

/// The longest wait is a tenth of a second at first, doubles with every attempt, and never exceeds
/// twenty seconds.
pub proof fn law_backoff_doubles(attempt: nat)
    ensures
        backoff_ceiling(0) == 100,
        2 * backoff_ceiling(attempt) <= 20_000 ==> backoff_ceiling(attempt + 1) == 2
            * backoff_ceiling(attempt),
        2 * backoff_ceiling(attempt) > 20_000 ==> backoff_ceiling(attempt + 1) == 20_000,
{
    vstd::arithmetic::power2::lemma2_to64();
    vstd::arithmetic::power2::lemma_pow2_unfold(attempt + 1);
}

/// Every wait up to the longest is picked by some reading of the clock, and none that is longer; a
/// reading counts up by one millisecond with every nanosecond, and begins again behind the longest
/// wait.
pub proof fn law_waits_are_picked_evenly(nanos: nat, max_ms: nat)
    ensures
        picked_ms(nanos, max_ms) <= max_ms,
        nanos <= max_ms ==> picked_ms(nanos, max_ms) == nanos,
        picked_ms(nanos + max_ms + 1, max_ms) == picked_ms(nanos, max_ms),
{
    vstd::arithmetic::div_mod::lemma_mod_bound(nanos as int, max_ms as int + 1);
    if nanos <= max_ms {
        vstd::arithmetic::div_mod::lemma_small_mod(nanos, max_ms + 1);
    }
    vstd::arithmetic::div_mod::lemma_mod_add_multiples_vanish(nanos as int, max_ms as int + 1);
    assert((max_ms as int + 1) + nanos as int == (nanos + max_ms + 1) as int);
}

/// A request is tried again exactly where its failure may pass and it was tried fewer than ten
/// times.
pub proof fn law_requests_are_tried_ten_times(attempt: u32, e: AwsErrorView)
    ensures
        retry_after(attempt, Some(e)) is Again <==> retryable(e) && attempt < 9,
        retry_after(attempt, None) is Done,
{
}

}
