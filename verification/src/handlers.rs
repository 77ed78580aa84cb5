//! The decisions behind the HTTP API: which pass the guest display shows,
//! what the health endpoint reports, and how controller outcomes map onto
//! HTTP status codes.
use vstd::prelude::*;

use crate::models::{
    passes_view, GuestPass, GuestPassView, HealthCheckResponse, UnleashedError, DAILY_NAME_PREFIX,
};
use crate::text::{chars_eq, chars_of, occurs_at_exec, starts_with};
use crate::unleashed_api::CreateOutcome;

verus! {

pub const STATUS_OK: u16 = 200;
pub const STATUS_BAD_REQUEST: u16 = 400;
pub const STATUS_NOT_FOUND: u16 = 404;
pub const STATUS_CONFLICT: u16 = 409;
pub const STATUS_INTERNAL_SERVER_ERROR: u16 = 500;
pub const STATUS_BAD_GATEWAY: u16 = 502;
pub const STATUS_SERVICE_UNAVAILABLE: u16 = 503;

/// Response header on `/api/passes/daily` saying whether the pass served is
/// the one the current period expects. `false` means either that today's
/// roll has not landed yet, or that this came from the in-memory cache
/// because the controller is unreachable.
pub const DAILY_PASS_CURRENT_HEADER: &'static str = "x-daily-pass-current";

/// Index of the first pass called `name`.
pub open spec fn first_named(ps: Seq<GuestPassView>, name: Seq<char>, n: int) -> Option<int>
    decreases n,
{
    if n <= 0 {
        None
    } else {
        match first_named(ps, name, n - 1) {
            Some(i) => Some(i),
            None => if ps[n - 1].name == name {
                Some(n - 1)
            } else {
                None
            },
        }
    }
}

pub open spec fn is_daily(p: GuestPassView) -> bool {
    starts_with(p.name, DAILY_NAME_PREFIX@)
}

/// Among the first `n` passes, the index of the daily pass created last;
/// of several created at the same second, the one listed last.
pub open spec fn newest_daily(ps: Seq<GuestPassView>, n: int) -> Option<int>
    decreases n,
{
    if n <= 0 {
        None
    } else {
        let prev = newest_daily(ps, n - 1);
        if is_daily(ps[n - 1]) {
            match prev {
                Some(j) => if ps[n - 1].created_at >= ps[j].created_at {
                    Some(n - 1)
                } else {
                    Some(j)
                },
                None => Some(n - 1),
            }
        } else {
            prev
        }
    }
}

/// Which pass to display, and whether it is the one the period expects:
/// the first pass with the expected name, else the newest daily pass.
pub open spec fn daily_choice(ps: Seq<GuestPassView>, expected: Seq<char>) -> Option<(int, bool)> {
    match first_named(ps, expected, ps.len() as int) {
        Some(i) => Some((i, true)),
        None => match newest_daily(ps, ps.len() as int) {
            Some(j) => Some((j, false)),
            None => None,
        },
    }
}

/// Find the pass to display. Returns the pass and whether it is the one the
/// current period expects; a stale fallback keeps the display populated when
/// a roll was missed.
pub fn resolve_daily_pass<'a>(passes: &'a Vec<GuestPass>, expected_name: &str) -> (r: Option<
    (&'a GuestPass, bool),
>)
    ensures
        match daily_choice(passes_view(passes@), expected_name@) {
            Some((i, current)) => r matches Some((p, c)) && *p == passes@[i] && c == current,
            None => r is None,
        },
{
    let ghost pv = passes_view(passes@);
    let expected = chars_of(expected_name);
    let mut i: usize = 0;
    while i < passes.len()
        invariant
            i <= passes.len(),
            pv == passes_view(passes@),
            expected@ == expected_name@,
            first_named(pv, expected@, i as int) is None,
        decreases passes.len() - i,
    {
        let name = chars_of(passes[i].name.as_str());
        assert(pv[i as int] == passes@[i as int]@);
        if chars_eq(&name, &expected) {
            assert(first_named(pv, expected@, i + 1) == Some(i as int));
            proof {
                lemma_first_named_stable(pv, expected@, i + 1, passes.len() as int);
            }
            return Some((&passes[i], true));
        }
        i = i + 1;
    }
    let prefix = chars_of(DAILY_NAME_PREFIX);
    let mut best: Option<usize> = None;
    let mut k: usize = 0;
    while k < passes.len()
        invariant
            k <= passes.len(),
            pv == passes_view(passes@),
            prefix@ == DAILY_NAME_PREFIX@,
            match newest_daily(pv, k as int) {
                Some(j) => best matches Some(b) && b == j && j < k,
                None => best is None,
            },
        decreases passes.len() - k,
    {
        let name = chars_of(passes[k].name.as_str());
        assert(pv[k as int] == passes@[k as int]@);
        if let Some(j) = best {
            assert(pv[j as int] == passes@[j as int]@);
        }
        if occurs_at_exec(&name, &prefix, 0) {
            best = match best {
                Some(j) => if passes[k].created_at >= passes[j].created_at {
                    Some(k)
                } else {
                    Some(j)
                },
                None => Some(k),
            };
        }
        k = k + 1;
    }
    assert(pv.len() == passes.len());
    match best {
        Some(j) => Some((&passes[j], false)),
        None => None,
    }
}

pub proof fn lemma_first_named_stable(ps: Seq<GuestPassView>, name: Seq<char>, m: int, n: int)
    requires
        0 <= m <= n,
        first_named(ps, name, m) is Some,
    ensures
        first_named(ps, name, n) == first_named(ps, name, m),
    decreases n - m,
{
    if m < n {
        lemma_first_named_stable(ps, name, m, n - 1);
    }
}

proof fn lemma_first_named(ps: Seq<GuestPassView>, name: Seq<char>, n: int)
    requires
        0 <= n <= ps.len(),
    ensures
        first_named(ps, name, n) matches Some(i) ==> 0 <= i < n && ps[i].name == name && forall|
            k: int,
        |
            0 <= k < i ==> ps[k].name != name,
        first_named(ps, name, n) is None ==> forall|k: int| 0 <= k < n ==> ps[k].name != name,
    decreases n,
{
    if n > 0 {
        lemma_first_named(ps, name, n - 1);
    }
}

proof fn lemma_newest_daily(ps: Seq<GuestPassView>, n: int)
    requires
        0 <= n <= ps.len(),
    ensures
        newest_daily(ps, n) matches Some(j) ==> 0 <= j < n && is_daily(ps[j]) && forall|k: int|
            0 <= k < n && is_daily(#[trigger] ps[k]) ==> ps[k].created_at <= ps[j].created_at,
        newest_daily(ps, n) is None ==> forall|k: int| 0 <= k < n ==> !is_daily(#[trigger] ps[k]),
    decreases n,
{
    if n > 0 {
        lemma_newest_daily(ps, n - 1);
    }
}

/// The pass shown on the guest display: when a pass carries the name the
/// period expects, it is the first such pass and is reported current;
/// otherwise it is a `daily-` pass created no earlier than any other
/// `daily-` pass, reported stale; and nothing is shown only when no pass is
/// a `daily-` pass and none has the expected name.
pub proof fn lemma_daily_choice(ps: Seq<GuestPassView>, expected: Seq<char>)
    ensures
        match daily_choice(ps, expected) {
            Some((i, true)) => 0 <= i < ps.len() && ps[i].name == expected && forall|k: int|
                0 <= k < i ==> ps[k].name != expected,
            Some((j, false)) => {
                &&& 0 <= j < ps.len()
                &&& is_daily(ps[j])
                &&& forall|k: int| 0 <= k < ps.len() ==> ps[k].name != expected
                &&& forall|k: int|
                    0 <= k < ps.len() && is_daily(#[trigger] ps[k]) ==> ps[k].created_at
                        <= ps[j].created_at
            },
            None => forall|k: int|
                0 <= k < ps.len() ==> ps[k].name != expected && !is_daily(#[trigger] ps[k]),
        },
{
    lemma_first_named(ps, expected, ps.len() as int);
    lemma_newest_daily(ps, ps.len() as int);
}

/// The last daily pass resolved from the controller.
#[derive(Clone, Debug)]
pub struct DailySnapshot {
    pub pass: GuestPass,
    /// True when `pass` is the one the period in effect at fetch time
    /// expected, rather than a stale fallback.
    pub current: bool,
}

pub struct SnapshotView {
    pub pass: GuestPassView,
    pub current: bool,
}

impl View for DailySnapshot {
    type V = SnapshotView;

    open spec fn view(&self) -> SnapshotView {
        SnapshotView { pass: self.pass@, current: self.current }
    }
}

impl DailySnapshot {
    pub fn copy(&self) -> (r: DailySnapshot)
        ensures
            r@ == self@,
    {
        DailySnapshot { pass: self.pass.copy(), current: self.current }
    }
}

pub open spec fn opt_snapshot_view(s: Option<DailySnapshot>) -> Option<SnapshotView> {
    match s {
        Some(x) => Some(x@),
        None => None,
    }
}

/// What the backend remembers between requests: whether the last controller
/// round-trip succeeded, and the last daily pass resolved from it.
///
/// A controller blip must not blank the guest display: the code printed on
/// the wall stays valid for its full duration regardless of whether this
/// app can currently talk to the controller, so a failed refresh never
/// clears the snapshot.
pub struct DailyCache {
    reachable: bool,
    snapshot: Option<DailySnapshot>,
}

pub struct CacheView {
    pub reachable: bool,
    pub snapshot: Option<SnapshotView>,
}

impl View for DailyCache {
    type V = CacheView;

    closed spec fn view(&self) -> CacheView {
        CacheView { reachable: self.reachable, snapshot: opt_snapshot_view(self.snapshot) }
    }
}

/// Whether the last controller round-trip succeeded. Read by the health
/// endpoint so that it never waits on the controller itself.
pub fn controller_reachable(cache: &DailyCache) -> (r: bool)
    ensures
        r == cache@.reachable,
{
    cache.reachable
}

/// The cached daily pass.
pub fn snapshot(cache: &DailyCache) -> (r: Option<DailySnapshot>)
    ensures
        opt_snapshot_view(r) == cache@.snapshot,
{
    match &cache.snapshot {
        Some(s) => Some(s.copy()),
        None => None,
    }
}

/// The snapshot a successful listing leaves behind: the pass it resolves,
/// or none when the controller holds no daily pass at all.
pub open spec fn snapshot_after_listing(
    ps: Seq<GuestPassView>,
    expected: Seq<char>,
) -> Option<SnapshotView> {
    match daily_choice(ps, expected) {
        Some((i, current)) => Some(SnapshotView { pass: ps[i], current }),
        None => None,
    }
}

/// The cache after a failed round-trip: unreachable, snapshot kept.
pub open spec fn cache_after_failure(c: CacheView) -> CacheView {
    CacheView { reachable: false, snapshot: c.snapshot }
}

/// The cache after the controller listed `ps`.
pub open spec fn cache_after_listing(c: CacheView, ps: Seq<GuestPassView>, expected: Seq<char>) -> CacheView {
    CacheView { reachable: true, snapshot: snapshot_after_listing(ps, expected) }
}

/// The cache after a refresh whose listing came back (`Some`) or failed.
pub open spec fn cache_after_refresh(
    c: CacheView,
    listing: Option<Seq<GuestPassView>>,
    expected: Seq<char>,
) -> CacheView {
    match listing {
        Some(ps) => cache_after_listing(c, ps, expected),
        None => cache_after_failure(c),
    }
}

/// The passes a listing brought, if it succeeded.
pub open spec fn listing_view(l: Result<Vec<GuestPass>, UnleashedError>) -> Option<Seq<GuestPassView>> {
    match l {
        Ok(ps) => Some(passes_view(ps@)),
        Err(_) => None,
    }
}

/// What `/api/passes/daily` answers, as a value.
pub enum AnswerView {
    Serve { pass: GuestPassView, current: bool },
    NotFound,
    Unavailable,
}

/// The answer a cache gives: the cached pass, current only while the
/// controller is reachable; without one, "not found" when the controller
/// answered and "unavailable" when it did not.
pub open spec fn answer_of(c: CacheView) -> AnswerView {
    match c.snapshot {
        Some(s) => AnswerView::Serve { pass: s.pass, current: s.current && c.reachable },
        None => if c.reachable {
            AnswerView::NotFound
        } else {
            AnswerView::Unavailable
        },
    }
}

/// What `/api/passes/daily` answers.
pub enum DailyAnswer {
    /// Serve this pass; `current` is the value of the freshness header.
    Serve { pass: GuestPass, current: bool },
    /// The controller answered and there genuinely is no daily pass yet.
    NotFound,
    /// Nothing cached and no controller: nothing is known yet.
    Unavailable,
}

impl View for DailyAnswer {
    type V = AnswerView;

    open spec fn view(&self) -> AnswerView {
        match self {
            DailyAnswer::Serve { pass, current } => AnswerView::Serve {
                pass: pass@,
                current: *current,
            },
            DailyAnswer::NotFound => AnswerView::NotFound,
            DailyAnswer::Unavailable => AnswerView::Unavailable,
        }
    }
}

impl DailyCache {
    /// Nothing known yet: no snapshot, controller not (yet) reachable.
    pub fn new() -> (r: DailyCache)
        ensures
            r@ == (CacheView { reachable: false, snapshot: None }),
    {
        DailyCache { reachable: false, snapshot: None }
    }

    /// A controller round-trip failed, or there is no client to make one:
    /// the controller is marked unreachable and the snapshot is kept.
    pub fn record_failure(&mut self)
        ensures
            final(self)@ == cache_after_failure(old(self)@),
    {
        self.reachable = false;
    }

    /// A controller round-trip succeeded without bearing on the daily pass
    /// (listing for the admin UI).
    pub fn record_success(&mut self)
        ensures
            final(self)@ == (CacheView { reachable: true, snapshot: old(self)@.snapshot }),
    {
        self.reachable = true;
    }

    /// The controller listed `passes`: it is reachable, and the pass to
    /// display replaces the snapshot. When the listing holds no daily pass
    /// at all, nothing is cached: the controller has answered that there is
    /// none.
    pub fn record_listing(&mut self, passes: &Vec<GuestPass>, expected_name: &str)
        ensures
            final(self)@ == cache_after_listing(old(self)@, passes_view(passes@), expected_name@),
    {
        self.reachable = true;
        proof {
            lemma_daily_choice(passes_view(passes@), expected_name@);
            if let Some((i, c)) = daily_choice(passes_view(passes@), expected_name@) {
                assert(passes_view(passes@)[i] == passes@[i]@);
            }
        }
        match resolve_daily_pass(passes, expected_name) {
            Some((pass, current)) => {
                self.snapshot = Some(DailySnapshot { pass: pass.copy(), current });
            },
            None => {
                self.snapshot = None;
            },
        }
    }

    /// Refresh the cache from the outcome of listing the controller's passes.
    pub fn refresh(
        &mut self,
        listing: &Result<Vec<GuestPass>, UnleashedError>,
        expected_name: &str,
    )
        ensures
            final(self)@ == cache_after_refresh(old(self)@, listing_view(*listing), expected_name@),
    {
        match listing {
            Ok(passes) => self.record_listing(passes, expected_name),
            Err(_) => self.record_failure(),
        }
    }

    /// Only go to the controller when it is believed to be up, or when the
    /// cache has nothing to fall back on. During a known outage the call
    /// would just block for the full client timeout before failing, and the
    /// cache already holds the code printed on the wall.
    pub fn should_refresh_before_serving(&self) -> (r: bool)
        ensures
            r == (self@.reachable || self@.snapshot is None),
    {
        self.reachable || self.snapshot.is_none()
    }

    /// The answer to `/api/passes/daily` from the cache as it stands. A
    /// cached pass is reported current only while the controller is
    /// reachable.
    pub fn daily_answer(&self) -> (r: DailyAnswer)
        ensures
            r@ == answer_of(self@),
    {
        match &self.snapshot {
            Some(s) => DailyAnswer::Serve {
                pass: s.pass.copy(),
                current: s.current && self.reachable,
            },
            None => if self.reachable {
                DailyAnswer::NotFound
            } else {
                DailyAnswer::Unavailable
            },
        }
    }
}

/// The status text of the health report.
pub open spec fn health_status_text(reachable: bool) -> Seq<char> {
    if reachable {
        "ok"@
    } else {
        "degraded"@
    }
}

/// Build the health response from cached state alone.
pub fn health_from_cache(reachable: bool, snapshot: Option<&DailySnapshot>) -> (r:
    HealthCheckResponse)
    ensures
        r.status@ == health_status_text(reachable),
        r.daily_pass_current == (reachable && match snapshot {
            Some(s) => s.current,
            None => false,
        }),
        r.controller_reachable == reachable,
{
    let status = if reachable {
        "ok".to_string()
    } else {
        "degraded".to_string()
    };
    let current = match snapshot {
        Some(s) => s.current,
        None => false,
    };
    HealthCheckResponse {
        status,
        daily_pass_current: reachable && current,
        controller_reachable: reachable,
    }
}

/// The HTTP status for a controller failure: the upstream failed to let us
/// in (502), refused the request (400), or something else went wrong (500).
pub open spec fn error_status(e: crate::models::ErrorView) -> u16 {
    match e {
        crate::models::ErrorView::Auth => STATUS_BAD_GATEWAY,
        crate::models::ErrorView::SessionLapsed => STATUS_BAD_GATEWAY,
        crate::models::ErrorView::Controller(_) => STATUS_BAD_REQUEST,
        _ => STATUS_INTERNAL_SERVER_ERROR,
    }
}

pub fn to_status(e: &UnleashedError) -> (r: u16)
    ensures
        r == error_status(e@),
{
    match e {
        UnleashedError::Auth | UnleashedError::SessionLapsed => STATUS_BAD_GATEWAY,
        UnleashedError::Controller { .. } => STATUS_BAD_REQUEST,
        _ => STATUS_INTERNAL_SERVER_ERROR,
    }
}

/// The HTTP status of `POST /api/passes`: 200 for a new pass, 409 when the
/// name is taken -- passes can never be deleted, so this is a permanent
/// condition for that name -- and the failure's status otherwise.
pub fn create_status(outcome: &Result<CreateOutcome, UnleashedError>) -> (r: u16)
    ensures
        match outcome {
            Ok(CreateOutcome::Created(_)) => r == STATUS_OK,
            Ok(CreateOutcome::AlreadyExists) => r == STATUS_CONFLICT,
            Err(e) => r == error_status(e@),
        },
{
    match outcome {
        Ok(CreateOutcome::Created(_)) => STATUS_OK,
        Ok(CreateOutcome::AlreadyExists) => STATUS_CONFLICT,
        Err(e) => to_status(e),
    }
}

/// A controller outage never blanks the display: once a pass is cached,
/// a failed round-trip leaves it served, reported stale.
pub proof fn lemma_outage_keeps_serving(c: CacheView)
    requires
        c.snapshot is Some,
    ensures
        answer_of(cache_after_failure(c)) == (AnswerView::Serve {
            pass: c.snapshot->0.pass,
            current: false,
        }),
{
}

/// A failed refresh leaves the cached pass in place.
pub proof fn lemma_failed_refresh_keeps_snapshot(c: CacheView, expected: Seq<char>)
    ensures
        cache_after_refresh(c, None, expected).snapshot == c.snapshot,
        !cache_after_refresh(c, None, expected).reachable,
{
}

/// After a successful refresh the answer follows the listing alone: the
/// pass it resolves, reported current exactly when it carries the expected
/// name (the expected pass itself whenever one is listed); and "not found"
/// when the controller holds no daily pass at all, whatever was cached.
pub proof fn lemma_refresh_serves_expected(
    c: CacheView,
    ps: Seq<GuestPassView>,
    expected: Seq<char>,
)
    ensures
        daily_choice(ps, expected) is Some ==> (answer_of(cache_after_listing(c, ps, expected)) matches AnswerView::Serve {
            pass,
            current,
        } && (current <==> pass.name == expected) && ((exists|k: int|
            0 <= k < ps.len() && ps[k].name == expected) ==> pass.name == expected)),
        daily_choice(ps, expected) is None ==> answer_of(cache_after_listing(c, ps, expected))
            is NotFound,
{
    lemma_daily_choice(ps, expected);
}

} // verus!
