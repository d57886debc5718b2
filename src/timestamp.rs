//! Ticks over calendar time.
//!
//! A timestamp counts seconds since the Unix epoch. Ticks are aligned in local
//! time, a fixed number of seconds east of UTC: days, hours, minutes and seconds
//! have a fixed length there, while years and months come from the calendar.

use crate::ticks::{
    ceil_multiple, clamp_ideal, closest_index, closest_to_ideal, count_ticks, tick_count,
    DataBound, Tick, TickInfo,
};
use chrono::Datelike;
use vstd::prelude::*;
use vstd::string::StringExecFns;

verus! {

/// A point in time, in seconds since 1970-01-01T00:00:00 UTC.
#[derive(Clone, Copy, Debug, PartialEq, Eq, Structural)]
pub struct UnixTime(pub i64);

/// The unit that the steps between time ticks are counted in.
#[derive(Clone, Copy, Debug, PartialEq, Eq, Structural)]
pub enum TimestampType {
    YR,
    MO,
    DY,
    HR,
    MI,
    SE,
}

/// The number of days from 0001-01-01 to 1970-01-01.
pub const UNIX_EPOCH_DAY_CE: i64 = 719163;

/// The seconds in one day.
pub const SECS_PER_DAY: i64 = 86400;

/// The year, month (from 1) and day of the month (from 1) of the calendar day that holds `secs`.
pub uninterp spec fn civil_date_of(secs: int) -> Option<(i32, u32, u32)>;

/// The day number, counted from 0001-01-01 as day one, of the first day of `month` in `year`.
pub uninterp spec fn first_day_of_month(year: int, month: int) -> Option<i32>;

/// Relies on chrono's `DateTime::from_timestamp` and its `Datelike` accessors
/// `year`, `month` and `day`: the calendar date that holds `secs`, with the month
/// counted from one to twelve and the day from one to thirty-one.
#[verifier::external_body]
fn date_of_timestamp(secs: i64) -> (r: Option<(i32, u32, u32)>)
    ensures
        r == civil_date_of(secs as int),
        r matches Some(ymd) ==> 1 <= ymd.1 <= 12 && 1 <= ymd.2 <= 31,
{
    match chrono::DateTime::from_timestamp(secs, 0) {
        Some(d) => Some((d.year(), d.month(), d.day())),
        None => None,
    }
}

/// Relies on chrono's `NaiveDate::from_ymd_opt` and its `Datelike::num_days_from_ce`
/// accessor: the day number of the first of the month, or `None` where chrono
/// has no such date.
#[verifier::external_body]
fn first_day_number(year: i32, month: u32) -> (r: Option<i32>)
    ensures
        r == first_day_of_month(year as int, month as int),
{
    match chrono::NaiveDate::from_ymd_opt(year, month, 1) {
        Some(d) => Some(d.num_days_from_ce()),
        None => None,
    }
}

/// The local time at which month number `idx` (twelve times the year plus the month from zero) starts.
pub open spec fn month_start(idx: int) -> Option<int> {
    let y = idx / 12;
    let m = idx % 12 + 1;
    if i32::MIN <= y <= i32::MAX {
        match first_day_of_month(y, m) {
            Some(d) => Some((d - UNIX_EPOCH_DAY_CE) * SECS_PER_DAY),
            None => None,
        }
    } else {
        None
    }
}

/// Month starts from month number `idx` on, `step` months apart, each later than the one before
/// (`prev` first) and none later than `last`; the list stops at the first that fails.
pub open spec fn month_ticks_from(idx: int, step: int, prev: int, last: int) -> Seq<int>
    decreases last - prev,
{
    match month_start(idx) {
        Some(t) => if prev < t && t <= last {
            seq![t] + month_ticks_from(idx + step, step, t, last)
        } else {
            seq![]
        },
        None => seq![],
    }
}

/// The month number from which ticks `step` months apart start at or after `first`.
pub open spec fn first_month_index(first: int, step: int) -> Option<int> {
    match civil_date_of(first) {
        Some(ym) => {
            let i0 = ceil_multiple(ym.0 * 12 + ym.1 - 1, step);
            match month_start(i0) {
                Some(t) => if t < first {
                    Some(i0 + step)
                } else {
                    Some(i0)
                },
                None => Some(i0),
            }
        },
        None => None,
    }
}

/// The local times of the month starts in `[first, last]` whose month number is a multiple of `step`.
pub open spec fn month_ticks(first: int, last: int, step: int) -> Seq<int> {
    match first_month_index(first, step) {
        Some(i) => month_ticks_from(i, step, first - 1, last),
        None => seq![],
    }
}

/// The local time at which month number `idx` starts.
fn month_start_time(idx: i64) -> (r: Option<i64>)
    ensures
        r matches Some(t) ==> month_start(idx as int) == Some(t as int),
        r is None ==> month_start(idx as int) is None,
{
    let y = match idx.checked_div_euclid(12) {
        Some(y) => y,
        None => 0,
    };
    let m = match idx.checked_rem_euclid(12) {
        Some(m) => m,
        None => 0,
    };
    proof {
        assert(y == idx as int / 12);
        assert(m == idx as int % 12);
    }
    if y < i32::MIN as i64 || y > i32::MAX as i64 {
        return None;
    }
    match first_day_number(y as i32, (m + 1) as u32) {
        Some(d) => Some((d as i64 - UNIX_EPOCH_DAY_CE) * SECS_PER_DAY),
        None => None,
    }
}

/// The local times of the month starts in `[first, last]` whose month number is a multiple of `step`.
pub fn calendar_ticks(first: i64, last: i64, step: i64) -> (r: Vec<i64>)
    requires
        1 <= step <= 60000,
        first <= last,
    ensures
        r@.map_values(|t: i64| t as int) == month_ticks(first as int, last as int, step as int),
{
    let mut ticks: Vec<i64> = Vec::new();
    let ym = date_of_timestamp(first);
    let (y, m, _) = match ym {
        Some(ym) => ym,
        None => {
            proof {
                assert(ticks@.map_values(|t: i64| t as int) =~= seq![]);
            }
            return ticks;
        },
    };
    let i0 = crate::ticks::round_up_to_nearest_multiple(y as i128 * 12 + m as i128 - 1, step as i128);
    let mut idx: i64 = i0 as i64;
    match month_start_time(idx) {
        Some(t) => {
            if t < first {
                idx = idx + step;
            }
        },
        None => {},
    }
    let mut prev: i128 = first as i128 - 1;
    let ghost whole = month_ticks(first as int, last as int, step as int);
    proof {
        assert(whole == month_ticks_from(idx as int, step as int, prev as int, last as int));
        assert(ticks@.map_values(|t: i64| t as int) + whole =~= whole);
    }
    loop
        invariant
            1 <= step <= 60000,
            -0x100_0000_0000 <= idx <= 0x100_0000_0000,
            whole == month_ticks(first as int, last as int, step as int),
            i64::MIN as int - 1 <= prev <= last,
            ticks@.map_values(|t: i64| t as int) + month_ticks_from(
                idx as int,
                step as int,
                prev as int,
                last as int,
            ) == whole,
        decreases last - prev,
    {
        let next = month_start_time(idx);
        let t = match next {
            Some(t) => t,
            None => {
                proof {
                    assert(month_ticks_from(idx as int, step as int, prev as int, last as int)
                        =~= seq![]);
                    assert(ticks@.map_values(|t: i64| t as int) =~= whole);
                }
                return ticks;
            },
        };
        if !(prev < t as i128 && t <= last) {
            proof {
                assert(month_ticks_from(idx as int, step as int, prev as int, last as int)
                    =~= seq![]);
                assert(ticks@.map_values(|t: i64| t as int) =~= whole);
            }
            return ticks;
        }
        proof {
            let y = idx as int / 12;
            assert(i32::MIN <= y <= i32::MAX);
            assert(-0x10_0000_0000 <= idx <= 0x10_0000_0000);
            let old_ticks = ticks@.map_values(|t: i64| t as int);
            assert(month_ticks_from(idx as int, step as int, prev as int, last as int) == seq![t as int]
                + month_ticks_from(idx + step, step as int, t as int, last as int));
        }
        let ghost before = ticks@.map_values(|t: i64| t as int);
        ticks.push(t);
        proof {
            assert(ticks@.map_values(|t: i64| t as int) =~= before + seq![t as int]);
        }
        idx = idx + step;
        prev = t as i128;
    }
}

proof fn lemma_month_ticks_within(idx: int, step: int, prev: int, last: int)
    ensures
        forall|k: int|
            0 <= k < month_ticks_from(idx, step, prev, last).len() ==> prev < #[trigger] month_ticks_from(
                idx,
                step,
                prev,
                last,
            )[k] <= last,
    decreases last - prev,
{
    match month_start(idx) {
        Some(t) => {
            if prev < t && t <= last {
                lemma_month_ticks_within(idx + step, step, t, last);
                let rest = month_ticks_from(idx + step, step, t, last);
                assert(month_ticks_from(idx, step, prev, last) == seq![t] + rest);
                assert forall|k: int|
                    0 <= k < month_ticks_from(idx, step, prev, last).len() implies prev
                    < #[trigger] month_ticks_from(idx, step, prev, last)[k] <= last by {
                    if k > 0 {
                        assert(month_ticks_from(idx, step, prev, last)[k] == rest[k - 1]);
                    }
                }
            }
        },
        None => {},
    }
}

/// The step multipliers of the time tick candidates, unit by unit: years, months, days, hours,
/// minutes, seconds.
pub open spec fn time_multipliers() -> Seq<int> {
    seq![
        1, 2, 5, 100, 200, 500, 1000, 2000, 5000,
        1, 2, 3, 6,
        1, 2, 4, 5, 7,
        1, 2, 4, 6,
        1, 2, 10, 15, 30,
        1, 2, 5, 10, 15, 30,
    ]
}

/// The number of time tick candidates.
pub const NUM_TIME_CANDIDATES: usize = 33;

/// The unit of time tick candidate `i`.
pub open spec fn candidate_unit(i: int) -> TimestampType {
    if i < 9 {
        TimestampType::YR
    } else if i < 13 {
        TimestampType::MO
    } else if i < 18 {
        TimestampType::DY
    } else if i < 22 {
        TimestampType::HR
    } else if i < 27 {
        TimestampType::MI
    } else {
        TimestampType::SE
    }
}

/// Whether a unit follows the calendar rather than a fixed number of seconds.
pub open spec fn is_calendar(u: TimestampType) -> bool {
    u == TimestampType::YR || u == TimestampType::MO
}

/// The length of one unit: in months for the calendar units, in seconds for the others.
pub open spec fn unit_len(u: TimestampType) -> int {
    match u {
        TimestampType::YR => 12,
        TimestampType::MO => 1,
        TimestampType::DY => 86400,
        TimestampType::HR => 3600,
        TimestampType::MI => 60,
        TimestampType::SE => 1,
    }
}

/// The step of time tick candidate `i`, in the unit's own measure.
pub open spec fn candidate_time_step(i: int) -> int {
    time_multipliers()[i] * unit_len(candidate_unit(i))
}

/// The ticks (UTC seconds) of time tick candidate `i` over `[start, end]`, aligned in local time
/// `off` seconds east of UTC.
pub open spec fn candidate_ticks(start: int, end: int, off: int, i: int) -> Seq<int> {
    let step = candidate_time_step(i);
    let first = start + off;
    let last = end + off;
    if is_calendar(candidate_unit(i)) {
        month_ticks(first, last, step).map_values(|t: int| t - off)
    } else {
        Seq::new(
            tick_count(first, last, step) as nat,
            |k: int| ceil_multiple(first, step) + k * step - off,
        )
    }
}

/// The tick counts of all the time tick candidates.
pub open spec fn time_counts(start: int, end: int, off: int) -> Seq<int> {
    Seq::new(33, |i: int| candidate_ticks(start, end, off, i).len() as int)
}

/// The time tick candidate that is picked: the first whose count is closest to the ideal.
pub open spec fn time_choice(start: int, end: int, off: int, n: int) -> int {
    closest_index(time_counts(start, end, off), clamp_ideal(n), 33) as int
}

proof fn lemma_candidate_step_bounds(i: int)
    requires
        0 <= i < 33,
    ensures
        1 <= time_multipliers()[i] <= 5000,
        is_calendar(candidate_unit(i)) ==> 1 <= candidate_time_step(i) <= 60000,
        !is_calendar(candidate_unit(i)) ==> 1 <= candidate_time_step(i) <= 604800,
{
    if i == 0 {
        assert(time_multipliers()[0] == 1);
    } else if i == 1 {
        assert(time_multipliers()[1] == 2);
    } else if i == 2 {
        assert(time_multipliers()[2] == 5);
    } else if i == 3 {
        assert(time_multipliers()[3] == 100);
    } else if i == 4 {
        assert(time_multipliers()[4] == 200);
    } else if i == 5 {
        assert(time_multipliers()[5] == 500);
    } else if i == 6 {
        assert(time_multipliers()[6] == 1000);
    } else if i == 7 {
        assert(time_multipliers()[7] == 2000);
    } else if i == 8 {
        assert(time_multipliers()[8] == 5000);
    } else if i == 9 {
        assert(time_multipliers()[9] == 1);
    } else if i == 10 {
        assert(time_multipliers()[10] == 2);
    } else if i == 11 {
        assert(time_multipliers()[11] == 3);
    } else if i == 12 {
        assert(time_multipliers()[12] == 6);
    } else if i == 13 {
        assert(time_multipliers()[13] == 1);
    } else if i == 14 {
        assert(time_multipliers()[14] == 2);
    } else if i == 15 {
        assert(time_multipliers()[15] == 4);
    } else if i == 16 {
        assert(time_multipliers()[16] == 5);
    } else if i == 17 {
        assert(time_multipliers()[17] == 7);
    } else if i == 18 {
        assert(time_multipliers()[18] == 1);
    } else if i == 19 {
        assert(time_multipliers()[19] == 2);
    } else if i == 20 {
        assert(time_multipliers()[20] == 4);
    } else if i == 21 {
        assert(time_multipliers()[21] == 6);
    } else if i == 22 {
        assert(time_multipliers()[22] == 1);
    } else if i == 23 {
        assert(time_multipliers()[23] == 2);
    } else if i == 24 {
        assert(time_multipliers()[24] == 10);
    } else if i == 25 {
        assert(time_multipliers()[25] == 15);
    } else if i == 26 {
        assert(time_multipliers()[26] == 30);
    } else if i == 27 {
        assert(time_multipliers()[27] == 1);
    } else if i == 28 {
        assert(time_multipliers()[28] == 2);
    } else if i == 29 {
        assert(time_multipliers()[29] == 5);
    } else if i == 30 {
        assert(time_multipliers()[30] == 10);
    } else if i == 31 {
        assert(time_multipliers()[31] == 15);
    } else if i == 32 {
        assert(time_multipliers()[32] == 30);
    }
}

/// The unit and multiplier of time tick candidate `i`.
fn time_candidate(i: usize) -> (r: (TimestampType, i64))
    requires
        i < 33,
    ensures
        r.0 == candidate_unit(i as int),
        r.1 == time_multipliers()[i as int],
{
    let table: Vec<i64> = vec![
        1, 2, 5, 100, 200, 500, 1000, 2000, 5000,
        1, 2, 3, 6,
        1, 2, 4, 5, 7,
        1, 2, 4, 6,
        1, 2, 10, 15, 30,
        1, 2, 5, 10, 15, 30,
    ];
    proof {
        assert(table@.map_values(|v: i64| v as int) =~= time_multipliers());
        assert(table@[i as int] as int == table@.map_values(|v: i64| v as int)[i as int]);
    }
    let unit = if i < 9 {
        TimestampType::YR
    } else if i < 13 {
        TimestampType::MO
    } else if i < 18 {
        TimestampType::DY
    } else if i < 22 {
        TimestampType::HR
    } else if i < 27 {
        TimestampType::MI
    } else {
        TimestampType::SE
    };
    (unit, table[i])
}

/// The length of one unit: in months for the calendar units, in seconds for the others.
fn unit_length(u: TimestampType) -> (r: i64)
    ensures
        r == unit_len(u),
{
    match u {
        TimestampType::YR => 12,
        TimestampType::MO => 1,
        TimestampType::DY => 86400,
        TimestampType::HR => 3600,
        TimestampType::MI => 60,
        TimestampType::SE => 1,
    }
}

/// Ticks every `step` seconds of local time over `[first, last]`, as UTC seconds.
fn fixed_ticks(first: i64, last: i64, off: i64, step: i64) -> (r: Vec<i64>)
    requires
        1 <= step <= 604800,
        first <= last,
        i64::MIN <= first - off,
        last - off <= i64::MAX,
    ensures
        r@.map_values(|t: i64| t as int) == Seq::new(
            tick_count(first as int, last as int, step as int) as nat,
            |k: int| ceil_multiple(first as int, step as int) + k * step - off,
        ),
{
    let count = count_ticks(first, last, step as i128);
    let st = crate::ticks::round_up_to_nearest_multiple(first as i128, step as i128);
    let ghost want = Seq::new(
        tick_count(first as int, last as int, step as int) as nat,
        |k: int| ceil_multiple(first as int, step as int) + k * step - off,
    );
    let mut ticks: Vec<i64> = Vec::new();
    let mut k: u128 = 0;
    if count > 0 {
        proof {
            assert(count - 1 == (last - st) / (step as int));
            assert((count - 1) * step <= last - st) by (nonlinear_arith)
                requires
                    count - 1 == (last - st) / (step as int),
                    step >= 1,
                    last - st >= 0,
            ;
            assert(count - 1 <= (count - 1) * step) by (nonlinear_arith)
                requires
                    count >= 1,
                    step >= 1,
            ;
        }
    }
    while k < count
        invariant
            0 <= k <= count,
            count == tick_count(first as int, last as int, step as int),
            st == ceil_multiple(first as int, step as int),
            first <= st,
            count > 0 ==> st + (count - 1) * step <= last,
            count > 0 ==> count - 1 <= (count - 1) * step,
            1 <= step <= 604800,
            i64::MIN <= first - off,
            last - off <= i64::MAX,
            want == Seq::new(
                tick_count(first as int, last as int, step as int) as nat,
                |k: int| ceil_multiple(first as int, step as int) + k * step - off,
            ),
            ticks@.map_values(|t: i64| t as int) == want.take(k as int),
        decreases count - k,
    {
        proof {
            assert(0 <= k * step <= (count - 1) * step) by (nonlinear_arith)
                requires
                    0 <= k < count,
                    step >= 1,
            ;
        }
        proof {
            assert(step * k == k * step) by (nonlinear_arith);
        }
        let ki = k as i128;
        let t = (st + step as i128 * ki - off as i128) as i64;
        let ghost before = ticks@.map_values(|t: i64| t as int);
        ticks.push(t);
        proof {
            assert(want[k as int] == t as int);
            assert(ticks@.map_values(|t: i64| t as int) =~= before.push(t as int));
            assert(want.take(k + 1) =~= want.take(k as int).push(want[k as int]));
        }
        k = k + 1;
    }
    proof {
        assert(want.take(count as int) =~= want);
    }
    ticks
}

/// Local times moved back to UTC by `off` seconds.
fn shift_back(local: Vec<i64>, off: i64, first: i64, last: i64) -> (r: Vec<i64>)
    requires
        forall|k: int| 0 <= k < local@.len() ==> first <= #[trigger] local@[k] <= last,
        i64::MIN <= first - off,
        last - off <= i64::MAX,
    ensures
        r@.map_values(|t: i64| t as int) == local@.map_values(|t: i64| t as int).map_values(
            |t: int| t - off,
        ),
{
    let ghost want = local@.map_values(|t: i64| t as int).map_values(|t: int| t - off);
    let mut out: Vec<i64> = Vec::new();
    let mut k: usize = 0;
    while k < local.len()
        invariant
            0 <= k <= local@.len(),
            forall|j: int| 0 <= j < local@.len() ==> first <= #[trigger] local@[j] <= last,
            i64::MIN <= first - off,
            last - off <= i64::MAX,
            want == local@.map_values(|t: i64| t as int).map_values(|t: int| t - off),
            out@.map_values(|t: i64| t as int) == want.take(k as int),
        decreases local@.len() - k,
    {
        let t = local[k] - off;
        let ghost before = out@.map_values(|t: i64| t as int);
        out.push(t);
        proof {
            assert(want[k as int] == t as int);
            assert(out@.map_values(|t: i64| t as int) =~= before.push(t as int));
            assert(want.take(k + 1) =~= want.take(k as int).push(want[k as int]));
        }
        k = k + 1;
    }
    proof {
        assert(want.take(local@.len() as int) =~= want);
    }
    out
}

/// The ticks (UTC seconds) of time tick candidate `i` over `[start, end]`.
fn candidate_tick_times(start: i64, end: i64, off: i64, i: usize) -> (r: Vec<i64>)
    requires
        i < 33,
        start <= end,
        i64::MIN <= start + off,
        end + off <= i64::MAX,
    ensures
        r@.map_values(|t: i64| t as int) == candidate_ticks(start as int, end as int, off as int, i as int),
{
    let (unit, mult) = time_candidate(i);
    proof {
        lemma_candidate_step_bounds(i as int);
    }
    let len = unit_length(unit);
    let step = mult * len;
    let first = start + off;
    let last = end + off;
    match unit {
        TimestampType::YR | TimestampType::MO => {
            let local = calendar_ticks(first, last, step);
            proof {
                let lm = month_ticks(first as int, last as int, step as int);
                assert forall|k: int| 0 <= k < local@.len() implies first <= #[trigger] local@[k] <= last by {
                    assert(local@.map_values(|t: i64| t as int)[k] == lm[k]);
                    match first_month_index(first as int, step as int) {
                        Some(ix) => {
                            lemma_month_ticks_within(ix, step as int, first - 1, last as int);
                            assert(lm == month_ticks_from(ix, step as int, first - 1, last as int));
                            assert(first - 1 < month_ticks_from(ix, step as int, first - 1, last as int)[k]);
                            assert(lm[k] <= last);
                            assert(local@[k] as int == lm[k]);
                        },
                        None => {
                            assert(lm =~= seq![]);
                            assert(local@.map_values(|t: i64| t as int).len() == local@.len());
                        },
                    }
                }
            }
            shift_back(local, off, first, last)
        },
        _ => fixed_ticks(first, last, off, step),
    }
}

/// The number of ticks of time tick candidate `i` over `[start, end]`.
fn candidate_tick_count(start: i64, end: i64, off: i64, i: usize) -> (r: u128)
    requires
        i < 33,
        start <= end,
        i64::MIN <= start + off,
        end + off <= i64::MAX,
    ensures
        r == candidate_ticks(start as int, end as int, off as int, i as int).len(),
{
    let (unit, mult) = time_candidate(i);
    match unit {
        TimestampType::YR | TimestampType::MO => {
            let ticks = candidate_tick_times(start, end, off, i);
            proof {
                assert(ticks@.map_values(|t: i64| t as int).len() == ticks@.len());
            }
            ticks.len() as u128
        },
        _ => {
            proof {
                lemma_candidate_step_bounds(i as int);
            }
            let step = mult * unit_length(unit);
            count_ticks(start + off, end + off, step as i128)
        },
    }
}

/// Ticks over calendar time, aligned in local time `utc_offset` seconds east of UTC.
#[derive(Clone, Copy, Debug, PartialEq, Eq, Structural)]
pub struct UnixTimeContext {
    pub utc_offset: i32,
}

/// What the time tick layout yields over `[start, end]`, when it yields two or more ticks.
pub open spec fn time_ticks_match(
    t: TickInfo<UnixTime, TimestampType>,
    start: int,
    end: int,
    off: int,
    n: int,
) -> bool {
    let i = time_choice(start, end, off, n);
    let want = candidate_ticks(start, end, off, i);
    &&& t.unit_data == candidate_unit(i)
    &&& t.display_relative is None
    &&& t.ticks@.len() == want.len()
    &&& forall|k: int|
        0 <= k < want.len() ==> (#[trigger] t.ticks@[k]).position.0 == want[k]
            && t.ticks@[k].value == t.ticks@[k].position
}

impl UnixTimeContext {
    /// A context whose local time is `utc_offset` seconds east of UTC.
    pub fn new(utc_offset: i32) -> (r: Self)
        ensures
            r.utc_offset == utc_offset,
    {
        UnixTimeContext { utc_offset }
    }

    /// The context for UTC.
    pub fn utc() -> (r: Self)
        ensures
            r.utc_offset == 0,
    {
        UnixTimeContext { utc_offset: 0 }
    }

    /// Chooses time ticks over `range` aiming at `ideal_num_steps` of them, among every unit and
    /// multiplier; `None` when the best candidate yields fewer than two.
    pub fn compute_ticks(&self, ideal_num_steps: u32, range: DataBound<UnixTime>) -> (r: Option<
        TickInfo<UnixTime, TimestampType>,
    >)
        requires
            range.min.0 <= range.max.0,
            i64::MIN <= range.min.0 + self.utc_offset,
            range.max.0 + self.utc_offset <= i64::MAX,
        ensures
            r.is_some() <==> time_counts(
                range.min.0 as int,
                range.max.0 as int,
                self.utc_offset as int,
            )[time_choice(
                range.min.0 as int,
                range.max.0 as int,
                self.utc_offset as int,
                ideal_num_steps as int,
            )] >= 2,
            r matches Some(t) ==> time_ticks_match(
                t,
                range.min.0 as int,
                range.max.0 as int,
                self.utc_offset as int,
                ideal_num_steps as int,
            ),
    {
        let start = range.min.0;
        let end = range.max.0;
        let off = self.utc_offset as i64;
        let ghost counts = time_counts(start as int, end as int, off as int);
        let mut cs: Vec<u128> = Vec::new();
        let mut i: usize = 0;
        while i < NUM_TIME_CANDIDATES
            invariant
                0 <= i <= 33,
                start <= end,
                i64::MIN <= start + off,
                end + off <= i64::MAX,
                counts == time_counts(start as int, end as int, off as int),
                cs@.len() == i,
                forall|j: int| 0 <= j < i ==> #[trigger] cs@[j] as int == counts[j],
            decreases 33 - i,
        {
            let c = candidate_tick_count(start, end, off, i);
            cs.push(c);
            i = i + 1;
        }
        proof {
            assert(cs@.map_values(|c: u128| c as int) =~= counts);
        }
        let n: u32 = if ideal_num_steps < 2 {
            2
        } else {
            ideal_num_steps
        };
        let best = closest_to_ideal(&cs, n);
        if cs[best] < 2 {
            return None;
        }
        let times = candidate_tick_times(start, end, off, best);
        let (unit, _) = time_candidate(best);
        let ghost want = candidate_ticks(start as int, end as int, off as int, best as int);
        let mut ticks: Vec<Tick<UnixTime>> = Vec::new();
        let mut k: usize = 0;
        while k < times.len()
            invariant
                0 <= k <= times@.len(),
                times@.map_values(|t: i64| t as int) == want,
                ticks@.len() == k,
                forall|j: int|
                    0 <= j < k ==> (#[trigger] ticks@[j]).position.0 == want[j]
                        && ticks@[j].value == ticks@[j].position,
            decreases times@.len() - k,
        {
            let t = UnixTime(times[k]);
            proof {
                assert(want[k as int] == times@[k as int] as int);
            }
            ticks.push(Tick { position: t, value: t });
            k = k + 1;
        }
        Some(TickInfo { unit_data: unit, ticks, display_relative: None })
    }

    /// The range to show when the data gives no extent: one second from `offset`, or from zero.
    pub fn unit_range(&self, offset: Option<UnixTime>) -> (r: DataBound<UnixTime>)
        requires
            offset matches Some(o) ==> o.0 < i64::MAX,
        ensures
            r == (match offset {
                Some(o) => DataBound { min: o, max: UnixTime((o.0 + 1) as i64) },
                None => DataBound { min: UnixTime(0), max: UnixTime(1) },
            }),
    {
        match offset {
            Some(o) => DataBound { min: o, max: UnixTime(o.0 + 1) },
            None => DataBound { min: UnixTime(0), max: UnixTime(1) },
        }
    }
}

/// The time tick layout never picks a unit and multiplier whose count is farther from the ideal
/// than another candidate's, and none before it in candidate order is as near.
pub proof fn lemma_time_choice_is_closest(start: int, end: int, off: int, n: int)
    ensures
        0 <= time_choice(start, end, off, n) < 33,
        forall|i: int|
            0 <= i < 33 ==> crate::ticks::distance(
                time_counts(start, end, off)[time_choice(start, end, off, n)],
                clamp_ideal(n),
            ) <= crate::ticks::distance(#[trigger] time_counts(start, end, off)[i], clamp_ideal(n)),
        forall|i: int|
            0 <= i < time_choice(start, end, off, n) ==> crate::ticks::distance(
                time_counts(start, end, off)[time_choice(start, end, off, n)],
                clamp_ideal(n),
            ) < crate::ticks::distance(#[trigger] time_counts(start, end, off)[i], clamp_ideal(n)),
{
    crate::ticks::lemma_closest_index_is_min(time_counts(start, end, off), clamp_ideal(n), 33);
}

/// The three-letter name of month `m` (from one).
pub open spec fn month_abbrev(m: int) -> Seq<char> {
    if m == 1 {
        "Jan"@
    } else if m == 2 {
        "Feb"@
    } else if m == 3 {
        "Mar"@
    } else if m == 4 {
        "Apr"@
    } else if m == 5 {
        "May"@
    } else if m == 6 {
        "Jun"@
    } else if m == 7 {
        "Jul"@
    } else if m == 8 {
        "Aug"@
    } else if m == 9 {
        "Sep"@
    } else if m == 10 {
        "Oct"@
    } else if m == 11 {
        "Nov"@
    } else {
        "Dec"@
    }
}

/// The three-letter name of a month, counted from one.
pub fn month_str(month: u32) -> (r: &'static str)
    requires
        1 <= month <= 12,
    ensures
        r@ == month_abbrev(month as int),
{
    if month == 1 {
        "Jan"
    } else if month == 2 {
        "Feb"
    } else if month == 3 {
        "Mar"
    } else if month == 4 {
        "Apr"
    } else if month == 5 {
        "May"
    } else if month == 6 {
        "Jun"
    } else if month == 7 {
        "Jul"
    } else if month == 8 {
        "Aug"
    } else if month == 9 {
        "Sep"
    } else if month == 10 {
        "Oct"
    } else if month == 11 {
        "Nov"
    } else {
        "Dec"
    }
}

/// The name of a unit of time steps.
pub open spec fn unit_name(u: TimestampType) -> Seq<char> {
    match u {
        TimestampType::YR => "Years"@,
        TimestampType::MO => "Months"@,
        TimestampType::DY => "Days"@,
        TimestampType::HR => "Hours"@,
        TimestampType::MI => "Minutes"@,
        TimestampType::SE => "Seconds"@,
    }
}

impl TimestampType {
    /// The name of the unit.
    pub fn name(&self) -> (r: &'static str)
        ensures
            r@ == unit_name(*self),
    {
        match self {
            TimestampType::YR => "Years",
            TimestampType::MO => "Months",
            TimestampType::DY => "Days",
            TimestampType::HR => "Hours",
            TimestampType::MI => "Minutes",
            TimestampType::SE => "Seconds",
        }
    }
}

/// The label of a tick at local time `local`, on date `date`, for steps in unit `u`: the year;
/// the year and month; the month and day; the day and hour; the hour and minute; or the minute
/// and second, joined by a colon.
pub open spec fn time_label(date: (i32, u32, u32), local: int, u: TimestampType) -> Seq<char> {
    let sod = local % SECS_PER_DAY as int;
    let hour = sod / 3600;
    let minute = sod % 3600 / 60;
    let second = sod % 60;
    match u {
        TimestampType::YR => crate::label::decimal(date.0 as int),
        TimestampType::MO => crate::label::decimal(date.0 as int) + seq![':'] + month_abbrev(
            date.1 as int,
        ),
        TimestampType::DY => crate::label::decimal(date.1 as int) + seq![':']
            + crate::label::decimal(date.2 as int),
        TimestampType::HR => crate::label::decimal(date.2 as int) + seq![':']
            + crate::label::decimal(hour),
        TimestampType::MI => crate::label::decimal(hour) + seq![':'] + crate::label::decimal(minute),
        TimestampType::SE => crate::label::decimal(minute) + seq![':'] + crate::label::decimal(
            second,
        ),
    }
}

impl UnixTimeContext {
    /// The label of the tick at `val` for steps in unit `unit`, in local time; `None` where the
    /// calendar has no date for it.
    pub fn tick_label(&self, val: UnixTime, unit: TimestampType) -> (r: Option<String>)
        requires
            i64::MIN <= val.0 + self.utc_offset <= i64::MAX,
        ensures
            r is None <==> civil_date_of(val.0 + self.utc_offset) is None,
            r matches Some(s) ==> s@ == time_label(
                civil_date_of(val.0 + self.utc_offset)->Some_0,
                val.0 + self.utc_offset,
                unit,
            ),
    {
        let local = val.0 + self.utc_offset as i64;
        let date = date_of_timestamp(local);
        let (y, m, d) = match date {
            Some(ymd) => ymd,
            None => return None,
        };
        let sod = match local.checked_rem_euclid(SECS_PER_DAY) {
            Some(v) => v,
            None => 0,
        };
        let hour = sod / 3600;
        let minute = sod % 3600 / 60;
        let second = sod % 60;
        let mut s = String::new();
        proof {
            reveal_strlit(":");
        }
        match unit {
            TimestampType::YR => {
                crate::label::append_decimal(&mut s, y as i64);
            },
            TimestampType::MO => {
                crate::label::append_decimal(&mut s, y as i64);
                s.append(":");
                s.append(month_str(m));
            },
            TimestampType::DY => {
                crate::label::append_decimal(&mut s, m as i64);
                s.append(":");
                crate::label::append_decimal(&mut s, d as i64);
            },
            TimestampType::HR => {
                crate::label::append_decimal(&mut s, d as i64);
                s.append(":");
                crate::label::append_decimal(&mut s, hour);
            },
            TimestampType::MI => {
                crate::label::append_decimal(&mut s, hour);
                s.append(":");
                crate::label::append_decimal(&mut s, minute);
            },
            TimestampType::SE => {
                crate::label::append_decimal(&mut s, minute);
                s.append(":");
                crate::label::append_decimal(&mut s, second);
            },
        }
        proof {
            assert(s@ =~= time_label((y, m, d), local as int, unit));
        }
        Some(s)
    }
}

/// The time tick layout is a function of its inputs: two tick sets that meet its contract for
/// the same range, offset and ideal count are the same.
pub proof fn lemma_time_ticks_determined(
    a: TickInfo<UnixTime, TimestampType>,
    b: TickInfo<UnixTime, TimestampType>,
    start: int,
    end: int,
    off: int,
    n: int,
)
    requires
        time_ticks_match(a, start, end, off, n),
        time_ticks_match(b, start, end, off, n),
    ensures
        a.ticks@ == b.ticks@,
        a.unit_data == b.unit_data,
        a.display_relative == b.display_relative,
{
    assert forall|i: int| 0 <= i < a.ticks@.len() implies a.ticks@[i] == b.ticks@[i] by {
        let (x, y) = (a.ticks@[i], b.ticks@[i]);
        assert(x.position.0 == y.position.0);
        assert(x.position == y.position && x.value == y.value);
    }
    assert(a.ticks@ =~= b.ticks@);
}

} // verus!
