//! The background tasks' decisions: minting the daily pass and pacing the
//! refresh of the cached daily pass.
use vstd::prelude::*;

use crate::clock::{civil_date_of, period_start_date, period_start_day, valid_instant, Instant};
use crate::environment::Environment;
use crate::models::{daily_name_of, daily_pass_name, CreatePassRequest, UnleashedError};
use crate::handlers::{
    answer_of, cache_after_listing, lemma_daily_choice,
    lemma_refresh_serves_expected, AnswerView, CacheView,
};
use crate::models::GuestPassView;
use crate::unleashed_api::CreateOutcome;

verus! {

/// Number of times the startup mint is tried before deferring to the normal
/// schedule.
pub const STARTUP_RETRY_ATTEMPTS: u32 = 5;

/// Seconds between startup mint attempts.
pub const STARTUP_RETRY_DELAY_SECS: u64 = 60;

/// Seconds between refreshes of the cached daily pass while the controller
/// is answering. `/api/health` reads that cache, so this is also how stale a
/// health response can be.
pub const CACHE_REFRESH_INTERVAL_SECS: u64 = 60;

/// Seconds between refreshes while the controller is NOT answering: shorter,
/// so a pod recovering from an outage stops reporting `degraded` as soon as
/// the controller is reachable.
pub const CACHE_RETRY_INTERVAL_SECS: u64 = 5;

/// Seconds between checks for the controller client at startup.
pub const CLIENT_READY_POLL_INTERVAL_SECS: u64 = 2;

/// The name of the daily pass for the period in effect at `now`.
pub open spec fn expected_name_at(env: crate::environment::EnvView, now: Instant) -> Seq<char> {
    daily_name_of(
        civil_date_of(period_start_day(env.timezone, now.secs as int, env.daily_roll_hour)),
    )
}

/// The pass is always named `daily-<period-start-date>`.
pub fn expected_daily_name(env: &Environment, now: &Instant) -> (r: String)
    requires
        valid_instant(*now),
    ensures
        r@ == expected_name_at(env@, *now),
{
    let date = period_start_date(now, &env.timezone, env.daily_roll_hour);
    daily_pass_name(&date)
}

/// The request that mints the pass for the period in effect at `now`, with
/// the configured duration and sharing.
pub fn daily_pass_request(env: &Environment, now: &Instant) -> (r: CreatePassRequest)
    requires
        valid_instant(*now),
    ensures
        r.name@ == expected_name_at(env@, *now),
        r.duration_hours == env.daily_duration_hours,
        r.share_number == env.daily_share_number,
{
    CreatePassRequest {
        name: expected_daily_name(env, now),
        duration_hours: env.daily_duration_hours,
        share_number: env.daily_share_number,
    }
}

/// Ensure a pass exists for the period currently in effect: the controller
/// rejects duplicate names, so a pass that already exists counts as
/// success, and only a real failure is one.
pub fn daily_mint_result(outcome: Result<CreateOutcome, UnleashedError>) -> (r: Result<
    (),
    UnleashedError,
>)
    ensures
        match outcome {
            Ok(_) => r is Ok,
            Err(e) => r matches Err(x) && x@ == e@,
        },
{
    match outcome {
        Ok(_) => Ok(()),
        Err(e) => Err(e),
    }
}

/// What follows a startup mint attempt.
#[derive(PartialEq, Eq, Structural, Clone, Copy, Debug)]
pub enum StartupStep {
    /// The pass exists; go on to the daily schedule.
    Done,
    /// Try again after this many seconds.
    RetryAfter(u64),
    /// Give up and wait for the next scheduled roll.
    Defer,
}

/// What follows attempt number `attempt` (from 1) of the startup mint.
pub open spec fn startup_step(attempt: int, minted: bool) -> StartupStep {
    if minted {
        StartupStep::Done
    } else if attempt < STARTUP_RETRY_ATTEMPTS {
        StartupStep::RetryAfter(STARTUP_RETRY_DELAY_SECS)
    } else {
        StartupStep::Defer
    }
}

/// After attempt number `attempt` (from 1) of the startup mint: done on
/// success, otherwise retry after a short delay until the last attempt.
pub fn after_startup_attempt(attempt: u32, minted: bool) -> (r: StartupStep)
    ensures
        r == startup_step(attempt as int, minted),
        minted ==> r == StartupStep::Done,
        !minted && attempt < STARTUP_RETRY_ATTEMPTS ==> r == StartupStep::RetryAfter(
            STARTUP_RETRY_DELAY_SECS,
        ),
        !minted && attempt >= STARTUP_RETRY_ATTEMPTS ==> r == StartupStep::Defer,
{
    if minted {
        StartupStep::Done
    } else if attempt < STARTUP_RETRY_ATTEMPTS {
        StartupStep::RetryAfter(STARTUP_RETRY_DELAY_SECS)
    } else {
        StartupStep::Defer
    }
}

/// Seconds until the next refresh of the cached daily pass.
pub fn cache_refresh_interval_secs(reachable: bool) -> (r: u64)
    ensures
        r == if reachable {
            CACHE_REFRESH_INTERVAL_SECS
        } else {
            CACHE_RETRY_INTERVAL_SECS
        },
{
    if reachable {
        CACHE_REFRESH_INTERVAL_SECS
    } else {
        CACHE_RETRY_INTERVAL_SECS
    }
}

/// The daily rotation and the display agree on the name: once the pass
/// minted for the period in effect at `now` is listed by the controller, the
/// display serves a pass of that name and reports it current.
pub proof fn lemma_minted_pass_is_current(
    c: CacheView,
    ps: Seq<GuestPassView>,
    env: crate::environment::EnvView,
    now: Instant,
)
    requires
        exists|k: int| 0 <= k < ps.len() && ps[k].name == expected_name_at(env, now),
    ensures
        answer_of(cache_after_listing(c, ps, expected_name_at(env, now))) matches AnswerView::Serve {
            pass,
            current,
        } && current && pass.name == expected_name_at(env, now),
{
    let expected = expected_name_at(env, now);
    lemma_daily_choice(ps, expected);
    lemma_refresh_serves_expected(c, ps, expected);
}

/// The number of the last startup attempt, when attempt `i` (from 1) mints
/// exactly when `minted(i)`: the loop goes on from attempt `i` while the
/// step says to retry.
pub open spec fn last_startup_attempt(minted: spec_fn(int) -> bool, i: int) -> int
    decreases STARTUP_RETRY_ATTEMPTS - i,
{
    if i < STARTUP_RETRY_ATTEMPTS && startup_step(i, minted(i)) is RetryAfter {
        last_startup_attempt(minted, i + 1)
    } else {
        i
    }
}

/// The startup mint is tried until the first success, at most
/// `STARTUP_RETRY_ATTEMPTS` times, waiting `STARTUP_RETRY_DELAY_SECS`
/// between attempts: when the first success is attempt `first_success` (or
/// there is none among the first attempts, `first_success` beyond them),
/// exactly `min(first_success, STARTUP_RETRY_ATTEMPTS)` attempts are made,
/// each but the last followed by the delay, and the last ends the loop as
/// done or deferred.
pub proof fn lemma_startup_attempts(minted: spec_fn(int) -> bool, first_success: int)
    requires
        first_success >= 1,
        forall|i: int| 1 <= i < first_success ==> !#[trigger] minted(i),
        first_success <= STARTUP_RETRY_ATTEMPTS ==> minted(first_success),
    ensures
        last_startup_attempt(minted, 1) == if first_success < STARTUP_RETRY_ATTEMPTS {
            first_success
        } else {
            STARTUP_RETRY_ATTEMPTS as int
        },
        forall|i: int|
            1 <= i < last_startup_attempt(minted, 1) ==> #[trigger] startup_step(i, minted(i))
                == StartupStep::RetryAfter(STARTUP_RETRY_DELAY_SECS),
        first_success <= STARTUP_RETRY_ATTEMPTS ==> startup_step(
            last_startup_attempt(minted, 1),
            minted(last_startup_attempt(minted, 1)),
        ) == StartupStep::Done,
        first_success > STARTUP_RETRY_ATTEMPTS ==> startup_step(
            last_startup_attempt(minted, 1),
            minted(last_startup_attempt(minted, 1)),
        ) == StartupStep::Defer,
{
    lemma_startup_attempts_from(minted, first_success, 1);
}

proof fn lemma_startup_attempts_from(minted: spec_fn(int) -> bool, first_success: int, i: int)
    requires
        1 <= i <= first_success,
        i <= STARTUP_RETRY_ATTEMPTS,
        forall|j: int| 1 <= j < first_success ==> !#[trigger] minted(j),
        first_success <= STARTUP_RETRY_ATTEMPTS ==> minted(first_success),
    ensures
        last_startup_attempt(minted, i) == if first_success < STARTUP_RETRY_ATTEMPTS {
            first_success
        } else {
            STARTUP_RETRY_ATTEMPTS as int
        },
        forall|j: int|
            i <= j < last_startup_attempt(minted, i) ==> #[trigger] startup_step(j, minted(j))
                == StartupStep::RetryAfter(STARTUP_RETRY_DELAY_SECS),
    decreases STARTUP_RETRY_ATTEMPTS - i,
{
    if i < first_success && i < STARTUP_RETRY_ATTEMPTS {
        lemma_startup_attempts_from(minted, first_success, i + 1);
    }
}

} // verus!
