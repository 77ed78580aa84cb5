//! Time zones, local calendar dates and the daily roll schedule.
use vstd::prelude::*;

use chrono::Offset;


verus! {

/// Timestamps are kept within this many seconds of the Unix epoch, well
/// inside the range of dates `chrono` can represent.
pub const MAX_TIMESTAMP: i64 = 8_000_000_000_000;

pub const SECS_PER_DAY: i64 = 86400;

/// Wall-clock timestamps handed to `chrono` stay within this bound, still
/// inside the range of dates it can represent.
pub const WALL_CLOCK_LIMIT: i64 = 8_100_000_000_000;

/// Day numbers whose midnight lies within `WALL_CLOCK_LIMIT` of the epoch.
pub const MAX_DAY: i64 = 93_000_000;

pub const SECS_PER_HOUR: i64 = 3600;

#[verifier::external_type_specification]
#[verifier::external_body]
pub struct ExTz(chrono_tz::Tz);

/// An IANA time zone.
#[derive(Debug)]
pub struct TimeZone {
    zone: chrono_tz::Tz,
    name: String,
}

impl View for TimeZone {
    type V = Seq<char>;

    /// The zone's name in the IANA database.
    closed spec fn view(&self) -> Seq<char> {
        self.name@
    }
}

/// A calendar date (proleptic Gregorian).
#[derive(PartialEq, Eq, Structural, Clone, Copy, Debug)]
pub struct CivilDate {
    pub year: i32,
    pub month: u32,
    pub day: u32,
}

/// An instant: seconds and nanoseconds since the Unix epoch.
#[derive(PartialEq, Eq, Structural, Clone, Copy, Debug)]
pub struct Instant {
    pub secs: i64,
    pub nanos: u32,
}

/// How a local wall-clock time maps onto instants: not at all (a gap when
/// clocks spring forward), through one UTC offset, or through two (the
/// repeated hour when clocks fall back), in the order `chrono` reports them.
#[derive(PartialEq, Eq, Structural, Clone, Copy, Debug)]
pub enum LocalOffsets {
    Missing,
    Single(i32),
    Ambiguous(i32, i32),
}

/// The name (`Tz::name`) of the zone that `chrono_tz` knows under `name`.
pub uninterp spec fn zone_by_name(name: Seq<char>) -> Option<Seq<char>>;

/// Seconds the zone's local time is ahead of UTC at the UTC timestamp `utc`.
pub uninterp spec fn utc_offset(zone: Seq<char>, utc: int) -> int;

/// The UTC offsets under which the local wall-clock timestamp `local` occurs.
pub uninterp spec fn offsets_for_local(zone: Seq<char>, local: int) -> LocalOffsets;

pub open spec fn offset_in_range(o: int) -> bool {
    -86400 < o < 86400
}

pub open spec fn offsets_in_range(r: LocalOffsets) -> bool {
    match r {
        LocalOffsets::Missing => true,
        LocalOffsets::Single(o) => offset_in_range(o as int),
        LocalOffsets::Ambiguous(a, b) => offset_in_range(a as int) && offset_in_range(b as int),
    }
}

pub open spec fn valid_civil_date(d: CivilDate) -> bool {
    1 <= d.month <= 12 && 1 <= d.day <= 31
}

/// `chrono_tz::Tz::from_str`, then `Tz::name` of the zone found: the
/// contract claims that the result is the zone `zone_by_name` names.
#[verifier::external_body]
pub(crate) fn lookup_time_zone(name: &str) -> (r: Option<TimeZone>)
    ensures
        match r {
            Some(tz) => zone_by_name(name@) == Some(tz@),
            None => zone_by_name(name@) is None,
        },
{
    match name.parse::<chrono_tz::Tz>() {
        Ok(zone) => Some(TimeZone { zone, name: zone.name().to_string() }),
        Err(_) => None,
    }
}

/// `chrono_tz::Tz::UTC`, whose name is `UTC`: the contract claims that
/// name, and that its offset from UTC is zero at every instant and for every
/// local time (its table holds a single span with offset zero).
#[verifier::external_body]
pub(crate) fn utc_zone() -> (r: TimeZone)
    ensures
        r@ == "UTC"@,
        forall|t: int| #[trigger] utc_offset(r@, t) == 0,
        forall|l: int| #[trigger] offsets_for_local(r@, l) == LocalOffsets::Single(0),
{
    TimeZone { zone: chrono_tz::Tz::UTC, name: chrono_tz::Tz::UTC.name().to_string() }
}

impl TimeZone {
    /// The zone `chrono_tz` knows under `name`, if there is one.
    pub fn named(name: &str) -> (r: Option<TimeZone>)
        ensures
            match r {
                Some(tz) => zone_by_name(name@) == Some(tz@),
                None => zone_by_name(name@) is None,
            },
    {
        lookup_time_zone(name)
    }

    /// Coordinated Universal Time.
    pub fn utc() -> (r: TimeZone)
        ensures
            r@ == "UTC"@,
            forall|t: int| #[trigger] utc_offset(r@, t) == 0,
            forall|l: int| #[trigger] offsets_for_local(r@, l) == LocalOffsets::Single(0),
    {
        utc_zone()
    }

    /// The zone's name.
    pub fn name(&self) -> (r: String)
        ensures
            r@ == self@,
    {
        self.name.clone()
    }

    /// The same zone.
    pub fn copy(&self) -> (r: TimeZone)
        ensures
            r@ == self@,
    {
        TimeZone { zone: self.zone, name: self.name.clone() }
    }
}

/// `TimeZone::offset_from_utc_datetime` of `chrono_tz`, read through
/// `Offset::fix` and `FixedOffset::local_minus_utc`: the contract claims the
/// result is `utc_offset` of the zone and instant, and that it lies strictly
/// within a day, as every `FixedOffset` does.
#[verifier::external_body]
pub(crate) fn offset_at(tz: &TimeZone, utc: i64) -> (r: i32)
    requires
        -MAX_TIMESTAMP <= utc <= MAX_TIMESTAMP,
    ensures
        r as int == utc_offset(tz@, utc as int),
        offset_in_range(r as int),
{
    let naive = chrono::DateTime::from_timestamp(utc, 0).unwrap().naive_utc();
    chrono::TimeZone::offset_from_utc_datetime(&tz.zone, &naive).fix().local_minus_utc()
}

/// `TimeZone::offset_from_local_datetime` of `chrono_tz`, each offset read
/// through `Offset::fix`: the contract claims the result is
/// `offsets_for_local` of the zone and local time, with every offset
/// strictly within a day.
#[verifier::external_body]
fn local_offsets(tz: &TimeZone, local: i64) -> (r: LocalOffsets)
    requires
        -WALL_CLOCK_LIMIT <= local <= WALL_CLOCK_LIMIT,
    ensures
        r == offsets_for_local(tz@, local as int),
        offsets_in_range(r),
{
    let naive = chrono::DateTime::from_timestamp(local, 0).unwrap().naive_utc();
    match chrono::TimeZone::offset_from_local_datetime(&tz.zone, &naive) {
        chrono::LocalResult::None => LocalOffsets::Missing,
        chrono::LocalResult::Single(o) => LocalOffsets::Single(o.fix().local_minus_utc()),
        chrono::LocalResult::Ambiguous(a, b) => LocalOffsets::Ambiguous(
            a.fix().local_minus_utc(),
            b.fix().local_minus_utc(),
        ),
    }
}

/// Year of its era (0-399) of the day `doe` (0-146096) of a 400-year era
/// that starts on March 1.
pub open spec fn year_of_era(doe: int) -> int {
    (doe - doe / 1460 + doe / 36524 - doe / 146096) / 365
}

/// Day of its year (0-365, from March 1) of the day `doe` of an era.
pub open spec fn day_of_year(doe: int) -> int {
    let yoe = year_of_era(doe);
    doe - (365 * yoe + yoe / 4 - yoe / 100)
}

/// Month from March (0-11) of the day of the year `doy`.
pub open spec fn month_from_march(doy: int) -> int {
    (5 * doy + 2) / 153
}

/// The proleptic Gregorian date of day number `day` counted from
/// 1970-01-01: eras of 400 years (146097 days) counted from 0000-03-01,
/// years within an era, then months from March.
pub open spec fn civil_date_of(day: int) -> CivilDate {
    let z = day + 719468;
    let era = z / 146097;
    let doe = z % 146097;
    let yoe = year_of_era(doe);
    let doy = day_of_year(doe);
    let mp = month_from_march(doy);
    let d = doy - (153 * mp + 2) / 5 + 1;
    let m = if mp < 10 {
        mp + 3
    } else {
        mp - 9
    };
    let y = yoe + era * 400 + if m <= 2 {
        1int
    } else {
        0int
    };
    CivilDate { year: y as i32, month: m as u32, day: d as u32 }
}

proof fn lemma_era_ranges(doe: u32)
    by (bit_vector)
    requires
        doe < 146097,
    ensures
        (doe - doe / 1460 + doe / 36524 - doe / 146096) / 365 < 400,
        365 * ((doe - doe / 1460 + doe / 36524 - doe / 146096) / 365) + ((doe - doe / 1460 + doe
            / 36524 - doe / 146096) / 365) / 4 - ((doe - doe / 1460 + doe / 36524 - doe / 146096)
            / 365) / 100 <= doe,
        doe - (365 * ((doe - doe / 1460 + doe / 36524 - doe / 146096) / 365) + ((doe - doe / 1460
            + doe / 36524 - doe / 146096) / 365) / 4 - ((doe - doe / 1460 + doe / 36524 - doe
            / 146096) / 365) / 100) < 366,
{
}

proof fn lemma_month_ranges(doy: u32)
    by (bit_vector)
    requires
        doy < 366,
    ensures
        (5 * doy + 2) / 153 < 12,
        (153 * ((5 * doy + 2) / 153) + 2) / 5 <= doy,
        doy - (153 * ((5 * doy + 2) / 153) + 2) / 5 < 31,
{
}

/// The calendar date of day number `day` counted from 1970-01-01.
pub fn civil_date(day: i64) -> (r: CivilDate)
    requires
        -MAX_DAY <= day <= MAX_DAY,
    ensures
        r == civil_date_of(day as int),
        valid_civil_date(r),
{
    let zs: u64 = (day + 719468 + 700 * 146097) as u64;
    let era_s: u64 = zs / 146097;
    let doe: u64 = zs % 146097;
    proof {
        let z = day + 719468;
        assert(era_s == z / 146097 + 700 && doe == z % 146097) by (nonlinear_arith)
            requires
                zs == z + 700 * 146097,
                zs >= 0,
                era_s == zs / 146097,
                doe == zs % 146097,
        ;
        lemma_era_ranges(doe as u32);
    }
    let yoe: u64 = (doe + doe / 36524 - doe / 1460 - doe / 146096) / 365;
    let doy: u64 = doe - (365 * yoe + yoe / 4 - yoe / 100);
    proof {
        lemma_month_ranges(doy as u32);
    }
    let mp: u64 = (5 * doy + 2) / 153;
    let d: u64 = doy - (153 * mp + 2) / 5 + 1;
    let m: u64 = if mp < 10 {
        mp + 3
    } else {
        mp - 9
    };
    let y: i64 = yoe as i64 + (era_s as i64 - 700) * 400 + if m <= 2 {
        1
    } else {
        0
    };
    CivilDate { year: y as i32, month: m as u32, day: d as u32 }
}

pub open spec fn valid_instant(t: Instant) -> bool {
    -MAX_TIMESTAMP <= t.secs <= MAX_TIMESTAMP && t.nanos < 1_000_000_000
}

/// The zone's wall-clock time at UTC timestamp `utc`, as seconds counted
/// like a UTC timestamp.
pub open spec fn local_secs(zone: Seq<char>, utc: int) -> int {
    utc + utc_offset(zone, utc)
}

/// Day number (from 1970-01-01) of a wall-clock timestamp.
pub open spec fn day_number(local: int) -> int {
    local / 86400
}

/// Hour (0-23) of a wall-clock timestamp.
pub open spec fn hour_of(local: int) -> int {
    (local % 86400) / 3600
}

/// Day number and hour of a wall-clock timestamp.
pub(crate) fn day_and_hour(local: i64) -> (r: (i64, u32))
    requires
        -MAX_TIMESTAMP - SECS_PER_DAY <= local <= MAX_TIMESTAMP + SECS_PER_DAY,
    ensures
        r.0 as int == day_number(local as int),
        r.1 as int == hour_of(local as int),
        r.1 < 24,
{
    let day: i64 = if local >= 0 {
        local / SECS_PER_DAY
    } else {
        -((-(local + 1)) / SECS_PER_DAY) - 1
    };
    let rem: i64 = local - day * SECS_PER_DAY;
    assert(day == local as int / 86400 && rem == local as int % 86400) by (nonlinear_arith)
        requires
            day == (if local >= 0 {
                local / 86400
            } else {
                -((-(local + 1)) / 86400) - 1
            }),
            rem == local - day * 86400,
    ;
    (day, (rem / SECS_PER_HOUR) as u32)
}

/// Day number of the period in effect at `utc`: the period begins at
/// `roll_hour` local time, so before that hour it still belongs to the
/// previous day.
pub open spec fn period_start_day(zone: Seq<char>, utc: int, roll_hour: int) -> int {
    let l = local_secs(zone, utc);
    if hour_of(l) < roll_hour {
        day_number(l) - 1
    } else {
        day_number(l)
    }
}

/// The date of the period currently in effect. Before `roll_hour` the active
/// period still began on the previous day.
pub fn period_start_date(now: &Instant, tz: &TimeZone, roll_hour: u32) -> (r: CivilDate)
    requires
        valid_instant(*now),
    ensures
        r == civil_date_of(period_start_day(tz@, now.secs as int, roll_hour as int)),
        valid_civil_date(r),
{
    let off = offset_at(tz, now.secs);
    let local = now.secs + off as i64;
    let (day, hour) = day_and_hour(local);
    assert(-MAX_DAY + 1 <= day <= MAX_DAY - 1) by (nonlinear_arith)
        requires
            day == local / 86400,
            -MAX_TIMESTAMP - SECS_PER_DAY <= local <= MAX_TIMESTAMP + SECS_PER_DAY,
    ;
    if hour < roll_hour {
        civil_date(day - 1)
    } else {
        civil_date(day)
    }
}

/// The instant of `hour:00` local time on day `day`, trying the next hours
/// from `step` on when a spring-forward gap swallows that time; a repeated
/// local time takes the later of its two instants. Past three gaps the
/// wall-clock time is read as UTC.
pub open spec fn resolve_from(zone: Seq<char>, base: int, step: int) -> int
    decreases 3 - step,
{
    if step < 0 || step >= 3 {
        base
    } else {
        let naive = base + step * 3600;
        match offsets_for_local(zone, naive) {
            LocalOffsets::Single(o) => naive - o,
            LocalOffsets::Ambiguous(_earlier, later) => naive - later,
            LocalOffsets::Missing => resolve_from(zone, base, step + 1),
        }
    }
}

/// The instant at which local time `hour:00` on day `day` occurs.
pub open spec fn local_hour_instant(zone: Seq<char>, day: int, hour: int) -> int {
    resolve_from(zone, day * 86400 + hour * 3600, 0)
}

/// Resolve `day` at `hour:00:00` local time in `tz` to a concrete instant.
///
/// A repeated local time (the autumn "fall back" hour) uses the later of
/// the two offsets. A local time that does not exist (a spring-forward gap)
/// has no well-defined instant, so this advances hour by hour -- bounded to
/// three attempts -- until it lands past the gap, the same way a clock that
/// springs forward simply skips the missing hour.
pub fn resolve_local_hour(day: i64, hour: u32, tz: &TimeZone) -> (r: i64)
    requires
        -MAX_DAY <= day <= MAX_DAY,
        hour <= 23,
    ensures
        r as int == local_hour_instant(tz@, day as int, hour as int),
        day * 86400 + hour * 3600 - 86400 < r < day * 86400 + hour * 3600 + 3 * 3600 + 86400,
{
    let base: i64 = day * SECS_PER_DAY + hour as i64 * SECS_PER_HOUR;
    let mut step: i64 = 0;
    while step < 3
        invariant
            0 <= step <= 3,
            base == day * 86400 + hour * 3600,
            -MAX_DAY <= day <= MAX_DAY,
            hour <= 23,
            resolve_from(tz@, base as int, 0) == resolve_from(tz@, base as int, step as int),
        decreases 3 - step,
    {
        let naive = base + step * SECS_PER_HOUR;
        match local_offsets(tz, naive) {
            LocalOffsets::Single(o) => {
                return naive - o as i64;
            },
            LocalOffsets::Ambiguous(_earlier, later) => {
                return naive - later as i64;
            },
            LocalOffsets::Missing => {},
        }
        step = step + 1;
    }
    // Unreachable against any real tz database -- no zone skips three
    // consecutive local hours. It is a backstop: read the time as UTC.
    base
}

/// Whole seconds in `to - from` (truncated toward zero), where `to` is a
/// whole second.
pub open spec fn whole_seconds_between(from: Instant, to: int) -> int {
    if to > from.secs && from.nanos > 0 {
        to - from.secs - 1
    } else {
        to - from.secs
    }
}

/// Seconds from `now` until the next occurrence of `roll_hour` local time.
pub open spec fn seconds_until_roll(zone: Seq<char>, now: Instant, roll_hour: int) -> int {
    let today = day_number(local_secs(zone, now.secs as int));
    let candidate = local_hour_instant(zone, today, roll_hour);
    let target = if candidate > now.secs {
        candidate
    } else {
        local_hour_instant(zone, today + 1, roll_hour)
    };
    let whole = whole_seconds_between(now, target);
    if whole >= 1 {
        whole
    } else {
        1
    }
}

/// Seconds from `now` until the next occurrence of `roll_hour` local time.
/// Always strictly positive, so a task that wakes exactly on the boundary
/// cannot spin.
pub fn seconds_until_next_roll(now: &Instant, tz: &TimeZone, roll_hour: u32) -> (r: i64)
    requires
        valid_instant(*now),
        roll_hour <= 23,
    ensures
        r as int == seconds_until_roll(tz@, *now, roll_hour as int),
        r >= 1,
{
    let off = offset_at(tz, now.secs);
    let local = now.secs + off as i64;
    let (today, _hour) = day_and_hour(local);
    assert(-MAX_DAY <= today <= MAX_DAY - 1) by (nonlinear_arith)
        requires
            today == local / 86400,
            -MAX_TIMESTAMP - SECS_PER_DAY <= local <= MAX_TIMESTAMP + SECS_PER_DAY,
    ;
    let candidate = resolve_local_hour(today, roll_hour, tz);
    let target = if candidate > now.secs {
        candidate
    } else {
        resolve_local_hour(today + 1, roll_hour, tz)
    };
    let whole = if target > now.secs && now.nanos > 0 {
        target - now.secs - 1
    } else {
        target - now.secs
    };
    if whole >= 1 {
        whole
    } else {
        1
    }
}

/// In a zone whose offset is always zero (UTC), the wait for the roll is
/// the time to the next `roll_hour:00` of the day, counted from a whole
/// second: between one second and a whole day, and a whole day exactly at
/// the roll.
pub proof fn lemma_roll_wait_without_offset(zone: Seq<char>, now: Instant, roll_hour: int)
    requires
        forall|t: int| #[trigger] utc_offset(zone, t) == 0,
        forall|l: int| #[trigger] offsets_for_local(zone, l) == LocalOffsets::Single(0),
        0 <= roll_hour <= 23,
        now.nanos == 0,
    ensures
        seconds_until_roll(zone, now, roll_hour) == (roll_hour * 3600 - now.secs % 86400 - 1)
            % 86400 + 1,
{
    let secs = now.secs as int;
    assert(utc_offset(zone, secs) == 0);
    let today = secs / 86400;
    let sod = secs % 86400;
    assert(secs == today * 86400 + sod && 0 <= sod < 86400) by (nonlinear_arith)
        requires
            today == secs / 86400,
            sod == secs % 86400,
    ;
    assert(day_number(local_secs(zone, secs)) == today);
    let base = today * 86400 + roll_hour * 3600;
    assert(offsets_for_local(zone, base + 0 * 3600) == LocalOffsets::Single(0));
    assert(local_hour_instant(zone, today, roll_hour) == base);
    let base2 = (today + 1) * 86400 + roll_hour * 3600;
    assert(offsets_for_local(zone, base2 + 0 * 3600) == LocalOffsets::Single(0));
    assert(local_hour_instant(zone, today + 1, roll_hour) == base2);
    let k = roll_hour * 3600 - sod - 1;
    if base > secs {
        assert(k % 86400 == k) by (nonlinear_arith)
            requires
                0 <= k < 86400,
        ;
    } else {
        assert(k % 86400 == k + 86400) by (nonlinear_arith)
            requires
                -86400 <= k < 0,
        ;
    }
}

/// The period in effect at `utc` is the one that has begun and not yet
/// ended: its start, `roll_hour:00` wall-clock on its first day, is at or
/// before the local time, and the next period's start is after it. So at
/// `roll_hour:00` and later the period is the local day, and before it the
/// previous day.
pub proof fn lemma_period_contains_now(zone: Seq<char>, utc: int, roll_hour: int)
    requires
        0 <= roll_hour <= 23,
    ensures
        period_start_day(zone, utc, roll_hour) * 86400 + roll_hour * 3600 <= local_secs(zone, utc),
        local_secs(zone, utc) < (period_start_day(zone, utc, roll_hour) + 1) * 86400 + roll_hour
            * 3600,
        (local_secs(zone, utc) % 86400) / 3600 >= roll_hour ==> period_start_day(zone, utc, roll_hour)
            == local_secs(zone, utc) / 86400,
        (local_secs(zone, utc) % 86400) / 3600 < roll_hour ==> period_start_day(zone, utc, roll_hour)
            == local_secs(zone, utc) / 86400 - 1,
{
    let l = local_secs(zone, utc);
    let q = l / 86400;
    let r = l % 86400;
    assert(l == q * 86400 + r && 0 <= r < 86400) by (nonlinear_arith)
        requires
            q == l / 86400,
            r == l % 86400,
    ;
    let h = r / 3600;
    assert(h * 3600 <= r < h * 3600 + 3600) by (nonlinear_arith)
        requires
            h == r / 3600,
            0 <= r,
    ;
    if h < roll_hour {
        assert(r < roll_hour * 3600) by (nonlinear_arith)
            requires
                h < roll_hour,
                r < h * 3600 + 3600,
        ;
    } else {
        assert(roll_hour * 3600 <= r) by (nonlinear_arith)
            requires
                h >= roll_hour,
                h * 3600 <= r,
        ;
    }
}

/// The wait for the roll runs to the first `roll_hour:00` instant after
/// `now`: today's (local day) when it is still ahead of `now`, otherwise
/// tomorrow's. It is the whole seconds up to that instant, and never less
/// than one second.
pub proof fn lemma_roll_wait_targets_next_roll(zone: Seq<char>, now: Instant, roll_hour: int)
    ensures
        ({
            let today = day_number(local_secs(zone, now.secs as int));
            let c1 = local_hour_instant(zone, today, roll_hour);
            let c2 = local_hour_instant(zone, today + 1, roll_hour);
            let w = seconds_until_roll(zone, now, roll_hour);
            &&& w >= 1
            &&& c1 > now.secs ==> w == if c1 - now.secs - (if now.nanos > 0 {
                1int
            } else {
                0int
            }) >= 1 {
                c1 - now.secs - (if now.nanos > 0 {
                    1int
                } else {
                    0int
                })
            } else {
                1
            }
            &&& c1 <= now.secs && c2 > now.secs ==> w == if c2 - now.secs - (if now.nanos > 0 {
                1int
            } else {
                0int
            }) >= 1 {
                c2 - now.secs - (if now.nanos > 0 {
                    1int
                } else {
                    0int
                })
            } else {
                1
            }
            &&& c1 <= now.secs && c2 <= now.secs ==> w == 1
        }),
{
}

} // verus!
