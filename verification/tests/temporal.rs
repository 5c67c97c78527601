use git_insights::civil::{civil_from_days, ymd_from_unix};
use git_insights::code_frequency::{
    filter_by_weeks, heatmap_dom_by_hod, heatmap_dow_by_hod, histogram_day_of_month,
    histogram_day_of_week, histogram_hour_of_day,
};
use git_insights::visualize::{
    compute_calendar_heatmap, compute_heatmap_utc, compute_timeline_weeks,
};

#[test]
fn test_histogram_hour_of_day_basic() {
    // 00:00, 01:00, 01:59:59, 23:00
    let ts = vec![0, 3600, 7199, 23 * 3600];
    let bins = histogram_hour_of_day(&ts);
    assert_eq!(bins[0], 1);
    assert_eq!(bins[1], 2);
    assert_eq!(bins[23], 1);
}

#[test]
fn test_histogram_day_of_week_basic() {
    // 1970-01-04 00:00:00 UTC is Sunday (index 0)
    let sun = 3 * 86_400;
    // 1970-01-05 00:00:00 UTC is Monday (index 1)
    let mon = 4 * 86_400;
    let bins = histogram_day_of_week(&[sun, mon, mon]);
    assert_eq!(bins[0], 1);
    assert_eq!(bins[1], 2);
}

#[test]
fn test_ymd_from_unix_dom() {
    // 1970-01-31
    let jan31 = 30 * 86_400;
    let (_, m, d) = ymd_from_unix(jan31);
    assert_eq!((m, d), (1, 31));
}

#[test]
fn test_histogram_day_of_month_basic() {
    // 1970-01-01 is day 1, 1970-01-31 is day 31
    let d1 = 0;
    let d31 = 30 * 86_400;
    let bins = histogram_day_of_month(&[d1, d31, d31]);
    assert_eq!(bins[0], 1); // day 1
    assert_eq!(bins[30], 2); // day 31
}

#[test]
fn test_heatmap_dow_by_hod_known_points() {
    let sun_00 = 3 * 86_400;
    let sun_13 = sun_00 + 13 * 3_600;
    let mon_05 = 4 * 86_400 + 5 * 3_600;
    let grid = heatmap_dow_by_hod(&[sun_00, sun_13, mon_05]);
    assert_eq!(grid[0][0], 1);
    assert_eq!(grid[0][13], 1);
    assert_eq!(grid[1][5], 1);
}

#[test]
fn test_heatmap_shapes() {
    let ts = vec![0, 3600, 86_400, 100_000, 200_000];
    let dow = heatmap_dow_by_hod(&ts);
    assert_eq!(dow.len(), 7);
    assert_eq!(dow[0].len(), 24);
    let dom = heatmap_dom_by_hod(&ts);
    assert_eq!(dom.len(), 31);
    assert_eq!(dom[0].len(), 24);
}

#[test]
fn test_filter_by_weeks_empty_when_zero() {
    let now = 10 * 7 * 86_400;
    let ts = vec![now - 1000];
    let out = filter_by_weeks(&ts, Some(0), now);
    assert!(out.is_empty());
}

#[test]
fn test_compute_timeline_weeks_simple_bins() {
    let week = 604_800u64;
    let now = 10 * week; // arbitrary multiple
    let ts = vec![
        now - (0 * week) + 1, // this week
        now - (1 * week) + 2, // last week
        now - (1 * week) + 3, // last week
        now - (3 * week),     // 3 weeks ago
    ];
    let counts = compute_timeline_weeks(&ts, 4, now);
    assert_eq!(counts, vec![1, 0, 2, 1]);
}

#[test]
fn test_compute_heatmap_utc_known_points() {
    let sun_00 = 3 * 86_400;
    let sun_13 = sun_00 + 13 * 3_600;
    let mon_05 = 4 * 86_400 + 5 * 3_600;
    let grid = compute_heatmap_utc(&[sun_00, sun_13, mon_05]);
    assert_eq!(grid[0][0], 1); // Sun 00
    assert_eq!(grid[0][13], 1); // Sun 13
    assert_eq!(grid[1][5], 1); // Mon 05
}

#[test]
fn test_compute_calendar_heatmap_bins() {
    const DAY: u64 = 86_400;
    const WEEK: u64 = 7 * DAY;
    let now = 10 * WEEK;

    let start_of_week = now - (now % WEEK);
    let aligned_end = start_of_week + WEEK - 1;

    let t_curr1 = aligned_end - (1 * DAY); // within current week
    let t_curr2 = aligned_end - (2 * DAY);
    let t_prev1 = aligned_end - (8 * DAY); // previous week
    let ts = vec![t_curr1, t_curr2, t_prev1];

    let grid = compute_calendar_heatmap(&ts, 2, now);
    assert_eq!(grid.len(), 7);
    assert_eq!(grid[0].len(), 2);

    let mut col0 = 0usize;
    let mut col1 = 0usize;
    for r in 0..7 {
        col0 += grid[r][0];
        col1 += grid[r][1];
    }
    assert_eq!(col0, 1, "older week should have 1 commit");
    assert_eq!(col1, 2, "current week should have 2 commits");
}

#[test]
fn civil_dates_of_known_days() {
    assert_eq!(ymd_from_unix(0), (1970, 1, 1));
    assert_eq!(ymd_from_unix(2_592_000), (1970, 1, 31));
    assert_eq!(ymd_from_unix(2_678_399), (1970, 1, 31));
    assert_eq!(ymd_from_unix(2_678_400), (1970, 2, 1));
    assert_eq!(civil_from_days(-1), (1969, 12, 31));
    assert_eq!(civil_from_days(11_016), (2000, 2, 29));
    assert_eq!(civil_from_days(11_017), (2000, 3, 1));
    assert_eq!(civil_from_days(-719_468), (0, 3, 1));
    assert_eq!(civil_from_days(-719_469), (0, 2, 29));
    assert_eq!(ymd_from_unix(u64::MAX).1 >= 1, true);
}

#[test]
fn week_alignment_scenario() {
    let week = 604_800u64;
    let now = 10 * week;
    let ts = vec![now - week + 2, now - week + 3, now - 3 * week];
    // the window ends with the week that holds `now`
    assert_eq!(compute_timeline_weeks(&ts, 4, now), vec![1, 0, 2, 0]);
}

#[test]
fn histogram_totals_equal_the_number_of_timestamps() {
    let ts: Vec<u64> = (0..1000u64).map(|i| i * 7_919 * 3_600 + i).collect();
    let hours = histogram_hour_of_day(&ts);
    assert_eq!(hours.iter().sum::<usize>(), ts.len());
    assert_eq!(histogram_day_of_week(&ts).iter().sum::<usize>(), ts.len());
    assert_eq!(histogram_day_of_month(&ts).iter().sum::<usize>(), ts.len());
    let grid = heatmap_dom_by_hod(&ts);
    assert_eq!(grid.iter().map(|r| r.iter().sum::<usize>()).sum::<usize>(), ts.len());
    let now = 1_700_000_000u64;
    let kept = filter_by_weeks(&ts, Some(8), now);
    assert!(kept.len() < ts.len());
    assert_eq!(histogram_hour_of_day(&kept).iter().sum::<usize>(), kept.len());
    assert_eq!(filter_by_weeks(&ts, None, now), ts);
}

#[test]
fn lookback_keeps_the_aligned_weeks() {
    let week = 604_800u64;
    let now = 10 * week + 5;
    // the window of two weeks runs from 9 weeks to just before 11 weeks
    let ts = vec![9 * week - 1, 9 * week, 10 * week, 11 * week - 1, 11 * week];
    assert_eq!(filter_by_weeks(&ts, Some(2), now), vec![9 * week, 10 * week, 11 * week - 1]);
    assert_eq!(compute_timeline_weeks(&ts, 2, now), vec![1, 2]);
    let grid = compute_calendar_heatmap(&ts, 2, now);
    let total: usize = grid.iter().map(|r| r.iter().sum::<usize>()).sum();
    assert_eq!(total, 3);
    // 9 weeks after the epoch is a Thursday
    assert_eq!(grid[4][0], 1);
    assert_eq!(grid[4][1], 1);
    assert_eq!(grid[3][1], 1);
    assert!(filter_by_weeks(&ts, Some(0), now).is_empty());
    assert!(compute_timeline_weeks(&ts, 0, now).is_empty());
    assert_eq!(compute_calendar_heatmap(&ts, 0, now), vec![Vec::<usize>::new(); 7]);
}

#[test]
fn times_at_the_end_of_the_range() {
    let ts = vec![u64::MAX, 0];
    assert_eq!(compute_timeline_weeks(&ts, 1, u64::MAX), vec![1]);
    assert_eq!(filter_by_weeks(&ts, Some(usize::MAX), u64::MAX), vec![u64::MAX]);
    assert_eq!(histogram_hour_of_day(&ts)[0], 1);
    let (y, m, d) = ymd_from_unix(u64::MAX);
    assert_eq!((y, m, d), (584_554_051_223, 11, 9));
    assert_eq!(civil_from_days(i64::MAX).1, 7);
    assert_eq!(civil_from_days(i64::MIN).1, 6);
}
