use diskmon_mail::alert::{empty_alert_state, AlertStateFile, DiskHistorySample};
use diskmon_mail::config::{NANOS_PER_DAY, NANOS_PER_HOUR};
use diskmon_mail::disk::DiskInfo;
use diskmon_mail::history::update_history;
use diskmon_mail::keyed_map::{compare_keys, KeyedMap};
use diskmon_mail::system::{architecture_label, get_is_virtualized, system_info_from};

const NOW: i64 = 1_700_000_000_000_000_000;

fn disk(mount: &str, used: u64) -> DiskInfo {
    DiskInfo {
        mount_point: mount.to_string(),
        display_name: format!("{} (/dev/x)", mount),
        file_system: "ext4".to_string(),
        total_space: 100,
        used_space: used,
        available_space: 100 - used,
    }
}

fn sample(timestamp: i64, used: u64) -> DiskHistorySample {
    DiskHistorySample { timestamp, total_space: 100, used_space: used, available_space: 100 - used }
}

fn samples_of<'a>(state: &'a AlertStateFile, key: &str) -> &'a Vec<DiskHistorySample> {
    state.history.get(key).unwrap()
}

#[test]
fn history_records_one_sample_per_run() {
    let mut state = empty_alert_state();
    update_history(&mut state, &[disk("/a", 10)], NOW);
    update_history(&mut state, &[disk("/a", 20)], NOW + NANOS_PER_HOUR);
    let s = samples_of(&state, "/a|ext4");
    assert_eq!(s.len(), 2);
    assert_eq!(s[0].used_space, 10);
    assert_eq!(s[1].used_space, 20);
    assert_eq!(s[1].timestamp, NOW + NANOS_PER_HOUR);
    assert_eq!(s[1].available_space, 80);
}

#[test]
fn history_keeps_thirty_one_days_in_time_order() {
    let mut state = empty_alert_state();
    state.history.insert(
        "/a|ext4".to_string(),
        vec![
            sample(NOW - 2 * NANOS_PER_DAY, 5),
            sample(NOW - 40 * NANOS_PER_DAY, 1),
            sample(NOW - 31 * NANOS_PER_DAY, 3),
            sample(NOW - 10 * NANOS_PER_DAY, 4),
        ],
    );
    update_history(&mut state, &[disk("/a", 9)], NOW);
    let s = samples_of(&state, "/a|ext4");
    let used: Vec<u64> = s.iter().map(|x| x.used_space).collect();
    assert_eq!(used, vec![3, 4, 5, 9]);
}

#[test]
fn history_forgets_unmeasured_mount_points_without_recent_samples() {
    let mut state = empty_alert_state();
    state.history.insert("/old|ext4".to_string(), vec![sample(NOW - 40 * NANOS_PER_DAY, 1)]);
    state.history.insert("/recent|ext4".to_string(), vec![sample(NOW - NANOS_PER_DAY, 1)]);
    update_history(&mut state, &[disk("/a", 9)], NOW);
    assert!(state.history.get("/old|ext4").is_none());
    assert_eq!(samples_of(&state, "/recent|ext4").len(), 1);
    assert_eq!(state.history.len(), 2);
}

#[test]
fn keyed_map_keeps_keys_in_order() {
    let mut m: KeyedMap<u32> = KeyedMap::new();
    m.insert("b".to_string(), 2);
    m.insert("a".to_string(), 1);
    m.insert("c".to_string(), 3);
    m.insert("b".to_string(), 20);
    assert_eq!(m.len(), 3);
    assert_eq!(m.key_at(0), "a");
    assert_eq!(m.key_at(1), "b");
    assert_eq!(*m.get("b").unwrap(), 20);
    assert_eq!(m.remove("a"), Some(1));
    assert_eq!(m.remove("a"), None);
    assert!(!m.contains_key("a"));
    assert!(m.contains_key("c"));
    assert!(compare_keys("/a", "/b") < 0);
    assert_eq!(compare_keys("x", "x"), 0);
    assert!(compare_keys("ab", "a") > 0);
}

#[test]
fn system_description_falls_back_to_defaults() {
    let s = system_info_from(None, None, Some("1.0".to_string()), "aarch64", None);
    assert_eq!(s.hostname, "unknown");
    assert_eq!(s.os_name, "Unknown OS");
    assert_eq!(s.os_version, "1.0");
    assert_eq!(s.architecture, "ARM64");
    assert!(!s.is_virtualized);
    assert_eq!(architecture_label("x86_64"), "64-bit");
    assert_eq!(architecture_label("riscv64"), "Unknown");
    assert!(get_is_virtualized(Some(true)));
    assert!(!get_is_virtualized(Some(false)));
    assert!(!get_is_virtualized(None));
}
