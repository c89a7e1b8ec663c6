//! Cutting a binary log into trading weeks.
//!
//! A binary log is a run of sixteen-byte ticks. Markets close on Friday at
//! 22:00 UTC and open again on Sunday at 22:00 UTC. A week is made of the
//! ticks between one opening and the closing that follows it. Times are in
//! milliseconds since the Unix epoch, a Thursday.

use crate::codec::{be_u64_at, RECORD_LEN};
use vstd::prelude::*;
use vstd::string::StringExecFns;

verus! {

/// Milliseconds in a day.
pub const DAY_MS: u64 = 86_400_000;

/// 22:00, in milliseconds since midnight.
pub const CLOSE_MS: u64 = 79_200_000;

/// Friday, counted from Monday as 0.
pub const FRIDAY: u64 = 4;

/// Sunday, counted from Monday as 0.
pub const SUNDAY: u64 = 6;

/// The last time that a week is looked for: the last millisecond whose
/// nanoseconds fit in 63 bits.
pub const MAX_MILLIS: u64 = 9_223_372_036_854;

/// One trading week of ticks.
#[derive(Debug, Clone, PartialEq, Eq)]
pub struct Week {
    /// The ticks, sixteen bytes each, in the order of the log.
    pub data: Vec<[u8; 16]>,
    /// The time of the first tick.
    pub start: u64,
    /// The time of the last tick.
    pub end: u64,
}

/// A week as a mathematical value.
pub struct WeekView {
    pub data: Seq<Seq<u8>>,
    pub start: u64,
    pub end: u64,
}

impl View for Week {
    type V = WeekView;

    open spec fn view(&self) -> WeekView {
        WeekView { data: ticks_view(self.data@), start: self.start, end: self.end }
    }
}

/// Why no week was found.
#[derive(Debug, Clone, Copy, PartialEq, Eq, Structural)]
pub enum WeekError {
    /// The log ended before the week did.
    EndOfData,
    /// The log holds a time behind `MAX_MILLIS`.
    OutOfRange,
}

/// The ticks as sequences of bytes.
pub open spec fn ticks_view(ticks: Seq<[u8; 16]>) -> Seq<Seq<u8>> {
    ticks.map_values(|t: [u8; 16]| t@)
}

/// The views of a run of weeks.
pub open spec fn week_views(weeks: Seq<Week>) -> Seq<WeekView> {
    weeks.map_values(|w: Week| w@)
}

/// The day of the week of `ms`, Monday being 0.
pub open spec fn weekday(ms: u64) -> int {
    ((ms as int / DAY_MS as int) + 3) % 7
}

/// 22:00 of the first `day` of the week that has not passed 22:00 at `ms`.
pub open spec fn next_close(ms: u64, day: int) -> int {
    let today = ms as int / DAY_MS as int;
    let ahead = (day - weekday(ms) + 7) % 7;
    let days = if ahead == 0 && ms as int % DAY_MS as int > CLOSE_MS as int {
        7
    } else {
        ahead
    };
    (today + days) * DAY_MS as int + CLOSE_MS as int
}

/// How many whole ticks `data` holds.
pub open spec fn tick_count(data: Seq<u8>) -> int {
    data.len() as int / 16
}

/// Tick `i` of `data`.
pub open spec fn tick(data: Seq<u8>, i: int) -> Seq<u8> {
    data.subrange(16 * i, 16 * i + 16)
}

/// The time of tick `i` of `data`.
pub open spec fn time_at(data: Seq<u8>, i: int) -> u64 {
    be_u64_at(data, 16 * i)
}

/// The first tick at or behind `i` whose time is `start` or later.
pub open spec fn first_at_or_after(data: Seq<u8>, i: int, start: u64) -> Option<int>
    decreases tick_count(data) - i,
{
    if 0 <= i < tick_count(data) {
        if time_at(data, i) >= start {
            Some(i)
        } else {
            first_at_or_after(data, i + 1, start)
        }
    } else {
        None
    }
}

/// The first tick at or behind `i` whose time is later than `limit`.
pub open spec fn first_after(data: Seq<u8>, i: int, limit: u64) -> Option<int>
    decreases tick_count(data) - i,
{
    if 0 <= i < tick_count(data) {
        if time_at(data, i) > limit {
            Some(i)
        } else {
            first_after(data, i + 1, limit)
        }
    } else {
        None
    }
}

/// The ticks from `from` up to `to` whose time is `opening` or later.
pub open spec fn ticks_since(data: Seq<u8>, from: int, to: int, opening: u64) -> Seq<Seq<u8>>
    decreases to - from,
{
    if from >= to {
        Seq::empty()
    } else if time_at(data, to - 1) >= opening {
        ticks_since(data, from, to - 1, opening).push(tick(data, to - 1))
    } else {
        ticks_since(data, from, to - 1, opening)
    }
}

/// The week that follows the first tick at `start` or later: its ticks,
/// and the time at which it closes.
pub open spec fn next_week(data: Seq<u8>, start: u64) -> Result<(Seq<Seq<u8>>, u64), WeekError> {
    match first_at_or_after(data, 0, start) {
        None => Err(WeekError::EndOfData),
        Some(k) => if time_at(data, k) > MAX_MILLIS {
            Err(WeekError::OutOfRange)
        } else {
            let opening = next_close(time_at(data, k), SUNDAY as int) as u64;
            let closing = next_close(opening, FRIDAY as int) as u64;
            match first_after(data, k + 1, closing) {
                None => Err(WeekError::EndOfData),
                Some(stop) => Ok((ticks_since(data, k + 1, stop, opening), closing)),
            }
        },
    }
}

/// The weeks of `data` that begin at `start` or later, in order. A week
/// without ticks is left out.
pub open spec fn weeks_from(data: Seq<u8>, start: u64) -> Seq<WeekView>
    decreases u64::MAX - start,
{
    match next_week(data, start) {
        Err(_) => Seq::empty(),
        Ok((ticks, closing)) => if start <= closing < u64::MAX {
            let rest = weeks_from(data, (closing + 1) as u64);
            if ticks.len() == 0 {
                rest
            } else {
                seq![
                    WeekView {
                        data: ticks,
                        start: be_u64_at(ticks.first(), 0),
                        end: be_u64_at(ticks.last(), 0),
                    },
                ] + rest
            }
        } else {
            Seq::empty()
        },
    }
}

/// 22:00 of the first `day` of the week that has not passed 22:00 at `ms`.
fn close_of(ms: u64, day: u64) -> (r: u64)
    requires
        ms <= MAX_MILLIS + 8 * DAY_MS,
        day < 7,
    ensures
        r == next_close(ms, day as int),
        ms <= r <= ms + 8 * DAY_MS,
{
    let today = ms / DAY_MS;
    let weekday = (today + 3) % 7;
    let ahead = (day + 7 - weekday) % 7;
    let days = if ahead == 0 && ms % DAY_MS > CLOSE_MS {
        7
    } else {
        ahead
    };
    assert((today + days) * DAY_MS + CLOSE_MS <= ms + 8 * DAY_MS && (today + days) * DAY_MS
        + CLOSE_MS >= ms) by (nonlinear_arith)
        requires
            today == ms / DAY_MS,
            DAY_MS == 86_400_000,
            CLOSE_MS == 79_200_000,
            days <= 7,
            days == 0 ==> ms % DAY_MS <= CLOSE_MS,
    ;
    (today + days) * DAY_MS + CLOSE_MS
}

/// The next closing of the markets: Friday, 22:00.
pub fn find_next_weekend_start(ms: u64) -> (r: u64)
    requires
        ms <= MAX_MILLIS,
    ensures
        r == next_close(ms, FRIDAY as int),
        weekday(r) == FRIDAY,
        ms <= r <= ms + 8 * DAY_MS,
{
    let r = close_of(ms, FRIDAY);
    proof {
        lemma_close_is_on_day(ms, FRIDAY as int);
    }
    r
}

/// The next opening of the markets: Sunday, 22:00.
pub fn find_next_weekend_end(ms: u64) -> (r: u64)
    requires
        ms <= MAX_MILLIS,
    ensures
        r == next_close(ms, SUNDAY as int),
        weekday(r) == SUNDAY,
        ms <= r <= ms + 8 * DAY_MS,
{
    let r = close_of(ms, SUNDAY);
    proof {
        lemma_close_is_on_day(ms, SUNDAY as int);
    }
    r
}

/// A closing lies on the day that was asked for, at 22:00.
pub proof fn lemma_close_is_on_day(ms: u64, day: int)
    requires
        0 <= day < 7,
        ms <= MAX_MILLIS + 8 * DAY_MS,
    ensures
        next_close(ms, day) % DAY_MS as int == CLOSE_MS,
        ((next_close(ms, day) / DAY_MS as int) + 3) % 7 == day,
{
    let today = ms as int / DAY_MS as int;
    let ahead = (day - weekday(ms) + 7) % 7;
    let days = if ahead == 0 && ms as int % DAY_MS as int > CLOSE_MS as int {
        7
    } else {
        ahead
    };
    let r = (today + days) * 86_400_000 + 79_200_000;
    assert(r / 86_400_000 == today + days && r % 86_400_000 == 79_200_000) by (nonlinear_arith)
        requires
            r == (today + days) * 86_400_000 + 79_200_000,
    ;
}

/// Copies tick `i` out of `data`.
fn tick_at(data: &[u8], i: usize) -> (r: [u8; 16])
    requires
        i < tick_count(data@),
    ensures
        r@ == tick(data@, i as int),
{
    let mut out: [u8; 16] = [0u8;16];
    let len = data.len();
    assert(i * 16 + 16 <= len) by (nonlinear_arith)
        requires
            0 <= i < len as int / 16,
    ;
    let base = i * 16;
    let mut k: usize = 0;
    while k < 16
        invariant
            k <= 16,
            base == 16 * i,
            base + 16 <= data@.len(),
            forall|j: int| 0 <= j < k ==> out@[j] == data@[base + j],
        decreases 16 - k,
    {
        out[k] = data[base + k];
        k += 1;
    }
    proof {
        assert(out@ =~= tick(data@, i as int));
    }
    out
}

/// Reads the time of tick `i` of `data`.
fn read_time(data: &[u8], i: usize) -> (r: u64)
    requires
        i < tick_count(data@),
    ensures
        r == time_at(data@, i as int),
{
    let len = data.len();
    assert(i * 16 + 16 <= len) by (nonlinear_arith)
        requires
            0 <= i < len as int / 16,
    ;
    let at = i * 16;
    (data[at] as u64) << 56 | (data[at + 1] as u64) << 48 | (data[at + 2] as u64) << 40 | (data[at
        + 3] as u64) << 32 | (data[at + 4] as u64) << 24 | (data[at + 5] as u64) << 16 | (data[at
        + 6] as u64) << 8 | (data[at + 7] as u64)
}

/// Finds the first tick at or behind tick `from` whose time is `start` or
/// later: its index and its time.
pub fn seek_first_time_gt(data: &[u8], from: usize, start: u64) -> (r: Option<(usize, u64)>)
    ensures
        match r {
            Some((at, time)) => first_at_or_after(data@, from as int, start) == Some(at as int)
                && from <= at < tick_count(data@) && time == time_at(data@, at as int) && time
                >= start,
            None => first_at_or_after(data@, from as int, start) is None,
        },
{
    let count = data.len() / RECORD_LEN;
    let mut i = from;
    while i < count
        invariant
            from <= i,
            count == tick_count(data@),
            first_at_or_after(data@, from as int, start) == first_at_or_after(
                data@,
                i as int,
                start,
            ),
        decreases count - i,
    {
        let time = read_time(data, i);
        if time >= start {
            return Some((i, time));
        }
        i += 1;
    }
    None
}

/// Finds the week that follows the first tick at `start` or later: the
/// ticks between the opening on the Sunday at or after that tick and the
/// closing on the Friday after it, and the time of that closing. The tick
/// that the search stops at is not part of the week. A log that ends
/// before a tick behind the closing has no such week.
pub fn find_next_week(data: &[u8], start: u64) -> (r: Result<(Vec<[u8; 16]>, u64), WeekError>)
    ensures
        match r {
            Ok((ticks, closing)) => next_week(data@, start) == Ok::<
                (Seq<Seq<u8>>, u64),
                WeekError,
            >((ticks_view(ticks@), closing)) && start <= closing <= MAX_MILLIS + 16 * DAY_MS,
            Err(e) => next_week(data@, start) == Err::<(Seq<Seq<u8>>, u64), WeekError>(e),
        },
{
    let count = data.len() / RECORD_LEN;
    let (first, true_start) = match seek_first_time_gt(data, 0, start) {
        None => {
            return Err(WeekError::EndOfData);
        },
        Some(found) => found,
    };
    if true_start > MAX_MILLIS {
        return Err(WeekError::OutOfRange);
    }
    let opening = find_next_weekend_end(true_start);
    let closing = close_of(opening, FRIDAY);
    let mut week: Vec<[u8; 16]> = Vec::new();
    let mut i = first + 1;
    proof {
        assert(ticks_view(week@) =~= ticks_since(data@, first + 1, i as int, opening));
    }
    while i < count
        invariant
            first < i,
            count == tick_count(data@),
            first_at_or_after(data@, 0, start) == Some(first as int),
            time_at(data@, first as int) == true_start,
            start <= true_start <= MAX_MILLIS,
            opening == next_close(true_start, SUNDAY as int),
            closing == next_close(opening, FRIDAY as int),
            true_start <= opening <= closing <= MAX_MILLIS + 16 * DAY_MS,
            first_after(data@, first + 1, closing) == first_after(data@, i as int, closing),
            ticks_view(week@) == ticks_since(data@, first + 1, i as int, opening),
        decreases count - i,
    {
        let time = read_time(data, i);
        if time > closing {
            return Ok((week, closing));
        }
        if time >= opening {
            let ghost before = week@;
            let t = tick_at(data, i);
            week.push(t);
            proof {
                assert(ticks_view(week@) =~= ticks_view(before).push(t@));
            }
        }
        i += 1;
    }
    Err(WeekError::EndOfData)
}

/// Cuts a binary log into its trading weeks, in order. A week without
/// ticks is left out, and so is what follows the last closing that a
/// later tick confirms.
pub fn chunk_data_into_weeks(data: &[u8]) -> (weeks: Vec<Week>)
    ensures
        week_views(weeks@) == weeks_from(data@, 0),
{
    let mut weeks: Vec<Week> = Vec::new();
    let mut next_start: u64 = 0;
    proof {
        assert(week_views(weeks@) + weeks_from(data@, next_start) =~= weeks_from(data@, 0));
    }
    loop
        invariant
            week_views(weeks@) + weeks_from(data@, next_start) == weeks_from(data@, 0),
        ensures
            week_views(weeks@) == weeks_from(data@, 0),
        decreases u64::MAX - next_start,
    {
        match find_next_week(data, next_start) {
            Err(_) => {
                proof {
                    assert(week_views(weeks@) + weeks_from(data@, next_start) =~= week_views(
                        weeks@,
                    ));
                }
                break ;
            },
            Ok((ticks, closing)) => {
                let ghost rest = weeks_from(data@, (closing + 1) as u64);
                if ticks.len() > 0 {
                    let start = time_of(&ticks[0]);
                    let end = time_of(&ticks[ticks.len() - 1]);
                    let ghost before = weeks@;
                    let week = Week { data: ticks, start, end };
                    let ghost view = week@;
                    proof {
                        assert(ticks_view(ticks@).first() == ticks@[0]@);
                        assert(ticks_view(ticks@).last() == ticks@[ticks@.len() - 1]@);
                    }
                    weeks.push(week);
                    proof {
                        assert(week_views(weeks@) =~= week_views(before).push(view));
                        assert(week_views(before).push(view) + rest =~= week_views(before) + (
                        seq![view] + rest));
                    }
                }
                next_start = closing + 1;
            },
        }
    }
    weeks
}

/// Reads the time of one tick.
fn time_of(tick: &[u8; 16]) -> (r: u64)
    ensures
        r == be_u64_at(tick@, 0),
{
    (tick[0] as u64) << 56 | (tick[1] as u64) << 48 | (tick[2] as u64) << 40 | (tick[3] as u64)
        << 32 | (tick[4] as u64) << 24 | (tick[5] as u64) << 16 | (tick[6] as u64) << 8 | (
    tick[7] as u64)
}

/// The longest gap between two ticks of a week that still counts as unbroken:
/// ten minutes.
pub const MAX_GAP_MS: u64 = 600_000;

/// The times of a run of ticks.
pub open spec fn times_of(ticks: Seq<Seq<u8>>) -> Seq<u64> {
    ticks.map_values(|t: Seq<u8>| be_u64_at(t, 0))
}

/// No tick is earlier than the one before it.
pub open spec fn ascending(times: Seq<u64>) -> bool {
    forall|i: int, j: int| 0 <= i <= j < times.len() ==> times[i] <= times[j]
}

/// What a walk over the times of a week has seen.
pub struct Gaps {
    /// The time of the last tick, 0 before the first tick with a time.
    pub last: u64,
    /// The longest gap between two ticks.
    pub longest: int,
    /// The sum of the gaps.
    pub total: int,
    /// The number of gaps.
    pub count: int,
}

/// The gaps between each tick and the one before it. Ticks at time 0 in
/// front of the first tick with a time count for nothing.
pub open spec fn gaps(times: Seq<u64>) -> Gaps
    decreases times.len(),
{
    if times.len() == 0 {
        Gaps { last: 0, longest: 0, total: 0, count: 0 }
    } else {
        let before = gaps(times.drop_last());
        let time = times.last();
        if before.last == 0 {
            Gaps { last: time, ..before }
        } else {
            let gap = time - before.last;
            Gaps {
                last: time,
                longest: if gap > before.longest {
                    gap
                } else {
                    before.longest
                },
                total: before.total + gap,
                count: before.count + 1,
            }
        }
    }
}

proof fn lemma_gaps_bounds(times: Seq<u64>)
    requires
        ascending(times),
    ensures
        0 <= gaps(times).longest <= gaps(times).total <= gaps(times).last,
        0 <= gaps(times).count <= times.len(),
        times.len() > 0 ==> gaps(times).last == times.last(),
    decreases times.len(),
{
    if times.len() > 0 {
        let front = times.drop_last();
        assert forall|i: int, j: int| 0 <= i <= j < front.len() implies front[i] <= front[j] by {
            assert(front[i] == times[i] && front[j] == times[j]);
        }
        lemma_gaps_bounds(front);
        if front.len() > 0 {
            assert(front.last() == times[times.len() - 2]);
        }
    }
}

/// Walks over the ticks of a week: the longest gap, the sum of the gaps,
/// and their number.
fn measure_gaps(week: &Week) -> (r: (u64, u64, u64))
    requires
        ascending(times_of(week@.data)),
    ensures
        r.0 == gaps(times_of(week@.data)).longest,
        r.1 == gaps(times_of(week@.data)).total,
        r.2 == gaps(times_of(week@.data)).count,
{
    let ghost times = times_of(week@.data);
    let mut last: u64 = 0;
    let mut longest: u64 = 0;
    let mut total: u64 = 0;
    let mut count: u64 = 0;
    let mut i: usize = 0;
    while i < week.data.len()
        invariant
            i <= week.data@.len(),
            times == times_of(week@.data),
            times.len() == week.data@.len(),
            ascending(times),
            last == gaps(times.take(i as int)).last,
            longest == gaps(times.take(i as int)).longest,
            total == gaps(times.take(i as int)).total,
            count == gaps(times.take(i as int)).count,
        decreases week.data@.len() - i,
    {
        let time = time_of(&week.data[i]);
        proof {
            let seen = times.take(i + 1);
            assert(seen.drop_last() =~= times.take(i as int));
            assert(seen.last() == time);
            assert forall|a: int, b: int| 0 <= a <= b < seen.len() implies seen[a] <= seen[b] by {
                assert(seen[a] == times[a] && seen[b] == times[b]);
            }
            lemma_gaps_bounds(seen);
        }
        if last != 0 {
            let gap = time - last;
            if gap > longest {
                longest = gap;
            }
            total = total + gap;
            count = count + 1;
        }
        last = time;
        i += 1;
    }
    proof {
        assert(times.take(i as int) =~= times);
    }
    (longest, total, count)
}

/// Whether no tick of the week is earlier than the one before it.
pub fn ticks_ascend(week: &Week) -> (r: bool)
    ensures
        r == ascending(times_of(week@.data)),
{
    let ghost times = times_of(week@.data);
    let mut i: usize = 1;
    while i < week.data.len()
        invariant
            1 <= i,
            times == times_of(week@.data),
            times.len() == week.data@.len(),
            forall|k: int| 0 < k < i && k < times.len() ==> times[k - 1] <= #[trigger] times[k],
        decreases week.data@.len() - i,
    {
        let before = time_of(&week.data[i - 1]);
        let time = time_of(&week.data[i]);
        if time < before {
            assert(times[i - 1] > times[i as int]);
            return false;
        }
        i += 1;
    }
    proof {
        assert forall|a: int, b: int| 0 <= a <= b < times.len() implies times[a] <= times[b] by {
            lemma_steps_ascend(times, a, b);
        }
    }
    true
}

proof fn lemma_steps_ascend(times: Seq<u64>, a: int, b: int)
    requires
        forall|k: int| 0 < k < times.len() ==> times[k - 1] <= #[trigger] times[k],
        0 <= a <= b < times.len(),
    ensures
        times[a] <= times[b],
    decreases b - a,
{
    if a < b {
        lemma_steps_ascend(times, a, b - 1);
    }
}

/// The longest time between two ticks of the week that follow each other,
/// in milliseconds.
pub fn calculate_max_time_between_ticks(week: &Week) -> (r: u64)
    requires
        ascending(times_of(week@.data)),
    ensures
        r == gaps(times_of(week@.data)).longest,
{
    measure_gaps(week).0
}

/// The average time between two ticks of the week that follow each other,
/// as the sum of the gaps in milliseconds and their number.
pub fn calculate_average_time_between_ticks(week: &Week) -> (r: (u64, u64))
    requires
        ascending(times_of(week@.data)),
    ensures
        r.0 == gaps(times_of(week@.data)).total,
        r.1 == gaps(times_of(week@.data)).count,
{
    let measured = measure_gaps(week);
    (measured.1, measured.2)
}

/// Whether the week is unbroken: no gap between two ticks is longer than
/// ten minutes.
pub fn week_is_unbroken(week: &Week) -> (r: bool)
    requires
        ascending(times_of(week@.data)),
    ensures
        r == (gaps(times_of(week@.data)).longest <= MAX_GAP_MS),
{
    calculate_max_time_between_ticks(week) <= MAX_GAP_MS
}

/// The path of the binary log that holds all ticks of a currency pair.
pub fn generate_path(currency_pair: &str) -> (r: String)
    ensures
        r@ == "data/bin/"@ + currency_pair@ + "-all.bin"@,
{
    let mut path = "data/bin/".to_owned();
    path.append(currency_pair);
    path.append("-all.bin");
    path
}

} // verus!
