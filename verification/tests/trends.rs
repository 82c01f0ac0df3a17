use diskmon_mail::alert::{empty_alert_state, DiskHistorySample};
use diskmon_mail::config::{NANOS_PER_DAY, NANOS_PER_HOUR};
use diskmon_mail::disk::{mount_key, DiskInfo};
use diskmon_mail::trend::{
    calculate_trends, estimate_time_to_full, growth_for_window, is_abnormal_growth,
    sample_for_window, trend_inputs_fit,
};

const NOW: i64 = 1_700_000_000_000_000_000;
const GIB: u64 = 1024 * 1024 * 1024;

fn disk_with_space(used_space: u64, total_space: u64) -> DiskInfo {
    DiskInfo {
        mount_point: "/var".to_string(),
        display_name: "/var (/dev/sda2)".to_string(),
        file_system: "ext4".to_string(),
        total_space,
        used_space,
        available_space: total_space.saturating_sub(used_space),
    }
}

fn sample(timestamp: i64, used: u64, total: u64) -> DiskHistorySample {
    DiskHistorySample {
        timestamp,
        total_space: total,
        used_space: used,
        available_space: total - used,
    }
}

#[test]
fn trends_calculate_growth_and_time_to_full() {
    let now = NOW;
    let gib = GIB;
    let disk = disk_with_space(64 * gib, 100 * gib);
    let mut state = empty_alert_state();
    state.history.insert(
        mount_key(&disk),
        vec![
            DiskHistorySample {
                timestamp: now - 24 * NANOS_PER_HOUR,
                total_space: 100 * gib,
                used_space: 52 * gib,
                available_space: 48 * gib,
            },
            DiskHistorySample {
                timestamp: now - 7 * NANOS_PER_DAY,
                total_space: 100 * gib,
                used_space: 44 * gib,
                available_space: 56 * gib,
            },
        ],
    );

    let trends = calculate_trends(&state, &[disk.clone()], now);
    let trend = trends.get(&mount_key(&disk)).unwrap();

    assert_eq!(trend.growth_24h, Some((12 * gib) as i64));
    assert_eq!(trend.growth_7d, Some((20 * gib) as i64));
    assert_eq!(trend.time_to_full_seconds, Some(3 * 86_400));
    assert!(trend.abnormal_growth);
}

#[test]
fn no_history_gives_no_trend_values() {
    let disk = disk_with_space(10, 100);
    let state = empty_alert_state();
    let trends = calculate_trends(&state, &[disk.clone()], NOW);
    let trend = trends.get("/var|ext4").unwrap();
    assert_eq!(trend.growth_24h, None);
    assert_eq!(trend.growth_7d, None);
    assert_eq!(trend.growth_30d, None);
    assert_eq!(trend.time_to_full_seconds, None);
    assert!(!trend.abnormal_growth);
}

#[test]
fn window_uses_latest_sample_old_enough() {
    let samples = vec![
        sample(NOW - 30 * NANOS_PER_HOUR, 10, 100),
        sample(NOW - 25 * NANOS_PER_HOUR, 20, 100),
        sample(NOW - 2 * NANOS_PER_HOUR, 30, 100),
    ];
    let s = sample_for_window(&samples, NOW, 24 * NANOS_PER_HOUR).unwrap();
    assert_eq!(s.used_space, 20);
}

#[test]
fn window_falls_back_to_earliest_sample_of_half_the_age() {
    let samples = vec![
        sample(NOW - 13 * NANOS_PER_HOUR, 10, 100),
        sample(NOW - 20 * NANOS_PER_HOUR, 5, 100),
        sample(NOW - NANOS_PER_HOUR, 30, 100),
    ];
    let s = sample_for_window(&samples, NOW, 24 * NANOS_PER_HOUR).unwrap();
    assert_eq!(s.used_space, 5);
    let young = vec![sample(NOW - 11 * NANOS_PER_HOUR, 10, 100)];
    assert!(sample_for_window(&young, NOW, 24 * NANOS_PER_HOUR).is_none());
}

#[test]
fn growth_can_be_negative() {
    let disk = disk_with_space(40, 100);
    let samples = vec![sample(NOW - 24 * NANOS_PER_HOUR, 50, 100)];
    assert_eq!(growth_for_window(&samples, &disk, NOW, 24 * NANOS_PER_HOUR), Some(-10));
}

#[test]
fn time_to_full_rounds_up_and_needs_growth() {
    let disk = disk_with_space(60, 100);
    let samples = vec![sample(NOW - 24 * NANOS_PER_HOUR, 57, 100)];
    // 40 bytes left at 3 bytes per 86400 s: ceil(40 * 86400 / 3) seconds.
    assert_eq!(estimate_time_to_full(&samples, &disk, NOW), Some(1_152_000));
    let flat = vec![sample(NOW - 24 * NANOS_PER_HOUR, 60, 100)];
    assert_eq!(estimate_time_to_full(&flat, &disk, NOW), None);
}

#[test]
fn abnormal_growth_needs_more_than_one_gib() {
    let samples = vec![sample(NOW - 7 * NANOS_PER_DAY, 0, 100 * GIB)];
    let disk = disk_with_space(GIB, 100 * GIB);
    assert!(!is_abnormal_growth(&samples, &disk, NOW, Some(GIB as i64), Some(GIB as i64)));
    assert!(is_abnormal_growth(
        &samples,
        &disk,
        NOW,
        Some(GIB as i64 + 1),
        Some(GIB as i64)
    ));
    assert!(!is_abnormal_growth(&samples, &disk, NOW, None, Some(1)));
}

#[test]
fn trend_inputs_fit_rejects_huge_counts() {
    let state = empty_alert_state();
    assert!(trend_inputs_fit(&state, &[disk_with_space(10, 100)]));
    assert!(!trend_inputs_fit(&state, &[disk_with_space(u64::MAX, u64::MAX)]));
}

#[test]
fn window_may_be_negative() {
    let samples = vec![sample(NOW + 2, 10, 100), sample(NOW + 5, 20, 100)];
    // A window of -3 ns compares against the latest sample at or before now + 3 ns.
    assert_eq!(sample_for_window(&samples, NOW, -3).unwrap().used_space, 10);
    // None is that early for -1 ns; half of -1 ns rounds down to -1 ns, so
    // the earliest sample at or before now + 1 ns is looked for, and there is none.
    assert!(sample_for_window(&samples, NOW, -1).is_none());
    let later = vec![sample(NOW + 1, 30, 100)];
    assert_eq!(sample_for_window(&later, NOW, -2).unwrap().used_space, 30);
    let disk = disk_with_space(40, 100);
    assert_eq!(growth_for_window(&samples, &disk, NOW, -3), Some(30));
}
