use chrono::{Datelike, TimeZone, Timelike};
use quantlib::weeks::{
    calculate_average_time_between_ticks, calculate_max_time_between_ticks,
    chunk_data_into_weeks, find_next_week, find_next_weekend_end, find_next_weekend_start,
    generate_path, seek_first_time_gt, ticks_ascend, week_is_unbroken, Week, WeekError, CLOSE_MS,
    DAY_MS, MAX_MILLIS,
};

const HOUR: u64 = 3_600_000;
// Monday, 1 January 2024, 00:00 UTC.
const MONDAY: u64 = 1_704_067_200_000;
const FRIDAY_CLOSE: u64 = MONDAY + 4 * DAY_MS + 22 * HOUR;
const SUNDAY_OPEN: u64 = MONDAY + 6 * DAY_MS + 22 * HOUR;

fn tick(time: u64) -> [u8; 16] {
    let mut out = [0u8; 16];
    out[..8].copy_from_slice(&time.to_be_bytes());
    out[8..12].copy_from_slice(&1.0f32.to_be_bytes());
    out[12..].copy_from_slice(&2.0f32.to_be_bytes());
    out
}

fn log(times: &[u64]) -> Vec<u8> {
    times.iter().flat_map(|t| tick(*t)).collect()
}

fn week(times: &[u64]) -> Week {
    Week {
        data: times.iter().map(|t| tick(*t)).collect(),
        start: times.first().copied().unwrap_or(0),
        end: times.last().copied().unwrap_or(0),
    }
}

#[test]
fn markets_close_on_friday_at_ten() {
    assert_eq!(CLOSE_MS, 22 * HOUR);
    assert_eq!(find_next_weekend_start(MONDAY), FRIDAY_CLOSE);
    assert_eq!(find_next_weekend_start(FRIDAY_CLOSE - 1), FRIDAY_CLOSE);
    assert_eq!(find_next_weekend_start(FRIDAY_CLOSE), FRIDAY_CLOSE);
    assert_eq!(find_next_weekend_start(FRIDAY_CLOSE + 1), FRIDAY_CLOSE + 7 * DAY_MS);
    assert_eq!(find_next_weekend_start(MONDAY + 5 * DAY_MS), FRIDAY_CLOSE + 7 * DAY_MS);
    // The epoch was a Thursday.
    assert_eq!(find_next_weekend_start(0), DAY_MS + 22 * HOUR);
}

#[test]
fn markets_open_on_sunday_at_ten() {
    assert_eq!(find_next_weekend_end(MONDAY), SUNDAY_OPEN);
    assert_eq!(find_next_weekend_end(FRIDAY_CLOSE), SUNDAY_OPEN);
    assert_eq!(find_next_weekend_end(SUNDAY_OPEN), SUNDAY_OPEN);
    assert_eq!(find_next_weekend_end(SUNDAY_OPEN + 1), SUNDAY_OPEN + 7 * DAY_MS);
    assert_eq!(find_next_weekend_end(0), 3 * DAY_MS + 22 * HOUR);
    assert_eq!(find_next_weekend_start(SUNDAY_OPEN), FRIDAY_CLOSE + 7 * DAY_MS);
}

#[test]
fn seek_finds_the_first_tick_at_or_after() {
    let data = log(&[10, 20, 30, 40]);
    assert_eq!(seek_first_time_gt(&data, 0, 0), Some((0, 10)));
    assert_eq!(seek_first_time_gt(&data, 0, 20), Some((1, 20)));
    assert_eq!(seek_first_time_gt(&data, 0, 21), Some((2, 30)));
    assert_eq!(seek_first_time_gt(&data, 3, 5), Some((3, 40)));
    assert_eq!(seek_first_time_gt(&data, 0, 41), None);
    assert_eq!(seek_first_time_gt(&data, 4, 0), None);
    assert_eq!(seek_first_time_gt(&data[..40], 0, 30), None);
}

#[test]
fn week_runs_from_opening_to_closing() {
    let next_close = FRIDAY_CLOSE + 7 * DAY_MS;
    let times = [
        MONDAY,
        MONDAY + HOUR,
        SUNDAY_OPEN - 1,
        SUNDAY_OPEN,
        SUNDAY_OPEN + HOUR,
        next_close,
        next_close + 1,
        next_close + 2,
    ];
    let data = log(&times);
    let (ticks, closing) = find_next_week(&data, 0).unwrap();
    assert_eq!(closing, next_close);
    assert_eq!(ticks, vec![tick(SUNDAY_OPEN), tick(SUNDAY_OPEN + HOUR), tick(next_close)]);
}

#[test]
fn week_without_a_later_tick_is_not_found() {
    let data = log(&[MONDAY, SUNDAY_OPEN, SUNDAY_OPEN + HOUR]);
    assert_eq!(find_next_week(&data, 0), Err(WeekError::EndOfData));
    assert_eq!(find_next_week(&data, SUNDAY_OPEN + HOUR + 1), Err(WeekError::EndOfData));
    assert_eq!(find_next_week(&[], 0), Err(WeekError::EndOfData));
}

#[test]
fn times_out_of_range_are_refused() {
    let data = log(&[MAX_MILLIS + 1, u64::MAX]);
    assert_eq!(find_next_week(&data, 0), Err(WeekError::OutOfRange));
    let data = log(&[MAX_MILLIS, u64::MAX]);
    assert!(find_next_week(&data, 0).is_ok());
    assert!(chunk_data_into_weeks(&log(&[MAX_MILLIS + 1, u64::MAX])).is_empty());
}

#[test]
fn log_is_cut_into_weeks() {
    let second_open = SUNDAY_OPEN + 7 * DAY_MS;
    let first_close = FRIDAY_CLOSE + 7 * DAY_MS;
    let second_close = FRIDAY_CLOSE + 14 * DAY_MS;
    let times = [
        MONDAY,
        SUNDAY_OPEN + 1,
        SUNDAY_OPEN + 2,
        first_close - 1,
        first_close + HOUR,
        second_open + 5,
        second_open + 6,
        second_close + HOUR,
        second_close + 2 * HOUR,
    ];
    let weeks = chunk_data_into_weeks(&log(&times));
    assert_eq!(weeks.len(), 2);
    assert_eq!(weeks[0].data, vec![tick(SUNDAY_OPEN + 1), tick(SUNDAY_OPEN + 2), tick(first_close - 1)]);
    assert_eq!((weeks[0].start, weeks[0].end), (SUNDAY_OPEN + 1, first_close - 1));
    // The tick that opens the search for a week is never part of it.
    assert_eq!(weeks[1].data, vec![tick(second_open + 5), tick(second_open + 6)]);
    assert_eq!((weeks[1].start, weeks[1].end), (second_open + 5, second_open + 6));
    assert!(chunk_data_into_weeks(&[]).is_empty());
    assert!(chunk_data_into_weeks(&log(&[MONDAY])).is_empty());
}

#[test]
fn gaps_between_ticks() {
    let w = week(&[1_000, 1_500, 4_000, 4_100]);
    assert!(ticks_ascend(&w));
    assert_eq!(calculate_max_time_between_ticks(&w), 2_500);
    assert_eq!(calculate_average_time_between_ticks(&w), (3_100, 3));
    assert!(week_is_unbroken(&w));

    let single = week(&[5]);
    assert_eq!(calculate_max_time_between_ticks(&single), 0);
    assert_eq!(calculate_average_time_between_ticks(&single), (0, 0));
    let empty = week(&[]);
    assert!(ticks_ascend(&empty));
    assert_eq!(calculate_max_time_between_ticks(&empty), 0);

    // Ticks at time 0 in front count for nothing.
    let zeros = week(&[0, 0, 7, 10]);
    assert_eq!(calculate_max_time_between_ticks(&zeros), 3);
    assert_eq!(calculate_average_time_between_ticks(&zeros), (3, 1));
}

#[test]
fn ten_minutes_is_the_longest_gap_of_an_unbroken_week() {
    assert!(week_is_unbroken(&week(&[1, 600_001])));
    assert!(!week_is_unbroken(&week(&[1, 600_002])));
    assert!(!ticks_ascend(&week(&[1, 5, 4])));
    assert!(ticks_ascend(&week(&[1, 5, 5])));
}

fn step_to(date: chrono::DateTime<chrono::Utc>, day: chrono::Weekday) -> u64 {
    let close = chrono::NaiveTime::from_hms_opt(22, 0, 0).unwrap();
    let mut date = date;
    loop {
        if date.weekday() == day && date.time() <= close {
            let at_close = date
                .with_hour(22)
                .unwrap()
                .with_minute(0)
                .unwrap()
                .with_second(0)
                .unwrap()
                .with_nanosecond(0)
                .unwrap();
            return at_close.timestamp_millis() as u64;
        }
        date = date + chrono::Duration::hours(12);
    }
}

#[test]
fn closings_agree_with_stepping_through_the_calendar() {
    let mut ms: u64 = 0;
    let mut samples = vec![0, 1, CLOSE_MS, CLOSE_MS + 1, DAY_MS - 1, MONDAY, FRIDAY_CLOSE, SUNDAY_OPEN];
    // A stride that is no multiple of an hour walks through all times of day.
    while ms < MONDAY + 400 * DAY_MS {
        samples.push(ms);
        ms += 37 * DAY_MS / 5 + 12_345_678;
    }
    for day in 0..30u64 {
        for offset in [0, 1, CLOSE_MS - 1, CLOSE_MS, CLOSE_MS + 1, 12 * HOUR, DAY_MS - 1] {
            samples.push(MONDAY + day * DAY_MS + offset);
        }
    }
    for ms in samples {
        let date = chrono::Utc.timestamp_millis_opt(ms as i64).unwrap();
        assert_eq!(find_next_weekend_start(ms), step_to(date, chrono::Weekday::Fri), "at {}", ms);
        assert_eq!(find_next_weekend_end(ms), step_to(date, chrono::Weekday::Sun), "at {}", ms);
    }
}

#[test]
fn all_ticks_of_a_pair_lie_in_one_log() {
    assert_eq!(generate_path("EUR_USD"), "data/bin/EUR_USD-all.bin");
    assert_eq!(generate_path(""), "data/bin/-all.bin");
}
