use diskmon_mail::alert::ReportKind;
use diskmon_mail::config::{alert_thresholds, Config};
use diskmon_mail::disk::{mount_key, DiskInfo};
use diskmon_mail::keyed_map::KeyedMap;
use diskmon_mail::mail::subject_prefix;
use diskmon_mail::summary::{build_executive_summary, executive_table, overall_status, severity_counts};
use diskmon_mail::trend::TrendInfo;

fn test_config() -> Config {
    Config {
        mail_enabled: true,
        smtp_server: "smtp.example.com".to_string(),
        smtp_port: 587,
        smtp_user: "user@example.com".to_string(),
        smtp_pass: "password".to_string(),
        email_from: "admin@example.com".to_string(),
        email_to: "alerts@example.com".to_string(),
        smtp_security: Some("starttls".to_string()),
        threshold_percent: Some(8500),
        warning_threshold_percent: Some(8500),
        critical_threshold_percent: Some(9000),
        emergency_threshold_percent: Some(9500),
        alert_cooldown_hours: Some(12),
        recovery_threshold_percent: Some(8200),
        send_recovery_email: Some(true),
        debug: Some(false),
        friendly_name: Some("test".to_string()),
        excluded_disks: Some(vec![]),
    }
}

fn disk(used: u64) -> DiskInfo {
    DiskInfo {
        mount_point: "/var".to_string(),
        display_name: "/var (/dev/sda2)".to_string(),
        file_system: "ext4".to_string(),
        total_space: 100,
        used_space: used,
        available_space: 100_u64.saturating_sub(used),
    }
}

#[test]
fn executive_summary_contains_daily_sections() {
    let cfg = test_config();
    let thresholds = alert_thresholds(&cfg);
    let disk = disk(96);
    let mut trends = KeyedMap::new();
    trends.insert(
        mount_key(&disk),
        TrendInfo {
            growth_24h: Some(12 * 1024 * 1024 * 1024),
            growth_7d: Some(20 * 1024 * 1024 * 1024),
            growth_30d: None,
            time_to_full_seconds: Some(3 * 86_400),
            abnormal_growth: true,
        },
    );

    let html = build_executive_summary(&[disk], thresholds, &trends);

    assert!(html.contains("Sumar executiv"));
    assert!(html.contains("Top 5 cele mai ocupate"));
    assert!(html.contains("Top 5 cele mai mari cresteri"));
    assert!(html.contains("Estimari time-to-full"));
    assert!(html.contains("Recomandari de actiune"));
    assert!(html.contains("EMERGENCY"));
}

#[test]
fn subject_prefix_uses_unicode_status_markers() {
    let cfg = test_config();
    let thresholds = alert_thresholds(&cfg);
    let ok_disk = disk(50);
    let alert_disk = disk(95);

    assert_eq!(subject_prefix(ReportKind::Forced, &[ok_disk], thresholds), "🟢 [RAPORT OK]");
    assert_eq!(subject_prefix(ReportKind::Forced, &[alert_disk], thresholds), "🔴 [RAPORT ALERTĂ]");
    assert_eq!(subject_prefix(ReportKind::Alert, &[], thresholds), "🔴 [ALARMĂ]");
    assert_eq!(subject_prefix(ReportKind::Recovery, &[], thresholds), "🟢 [REVENIRE OK]");
    assert_eq!(subject_prefix(ReportKind::Reminder, &[], thresholds), "🔴 [REMINDER ALARMĂ]");
}

#[test]
fn severity_counts_cover_every_disk() {
    let cfg = test_config();
    let thresholds = alert_thresholds(&cfg);
    let disks = vec![disk(10), disk(85), disk(90), disk(95), disk(99)];
    assert_eq!(severity_counts(&disks, thresholds), (1, 1, 1, 2));
}

#[test]
fn executive_table_lists_headers_and_rows() {
    let t = executive_table(&["A", "B"], vec![vec!["1".to_string(), "2".to_string()]]);
    assert!(t.contains("<th>A</th>"));
    assert!(t.contains("<td>1</td>"));
    assert!(t.contains("<td>2</td>"));
    let empty = executive_table(&["A"], vec![]);
    assert_eq!(empty, "<p class=\"empty\">Nu exista date suficiente.</p>");
}

#[test]
fn overall_status_reports_worst_level() {
    let cfg = test_config();
    let thresholds = alert_thresholds(&cfg);
    let mut trends: KeyedMap<TrendInfo> = KeyedMap::new();
    assert_eq!(overall_status(&[disk(10)], thresholds, &trends), "OK");
    assert_eq!(overall_status(&[disk(10), disk(91)], thresholds, &trends), "CRITICAL");
    assert_eq!(overall_status(&[disk(86), disk(96)], thresholds, &trends), "EMERGENCY");
    trends.insert(
        "/var|ext4".to_string(),
        TrendInfo {
            growth_24h: Some(2),
            growth_7d: Some(2),
            growth_30d: None,
            time_to_full_seconds: None,
            abnormal_growth: true,
        },
    );
    assert_eq!(overall_status(&[disk(10)], thresholds, &trends), "ATENTIE TREND");
    assert_eq!(overall_status(&[disk(85)], thresholds, &trends), "WARNING");
}
