use diskmon_mail::alert::{empty_alert_state, evaluate_alert_state, AlertEventKind, ReportKind};
use diskmon_mail::config::{alert_thresholds, Config, NANOS_PER_HOUR};
use diskmon_mail::disk::DiskInfo;
use diskmon_mail::severity::AlertSeverity;

fn test_config() -> Config {
    Config {
        mail_enabled: true,
        smtp_server: "smtp.example.com".to_string(),
        smtp_port: 587,
        smtp_user: "user@example.com".to_string(),
        smtp_pass: "password".to_string(),
        email_from: "admin@example.com".to_string(),
        email_to: "alerts@example.com".to_string(),
        smtp_security: Some("starttls".to_string()),
        threshold_percent: Some(8500),
        warning_threshold_percent: Some(8500),
        critical_threshold_percent: Some(9000),
        emergency_threshold_percent: Some(9500),
        alert_cooldown_hours: Some(12),
        recovery_threshold_percent: Some(8200),
        send_recovery_email: Some(true),
        debug: Some(false),
        friendly_name: Some("test".to_string()),
        excluded_disks: Some(vec![]),
    }
}

/// A disk of 100 bytes with `used` of them in use.
fn disk(used: u64) -> DiskInfo {
    DiskInfo {
        mount_point: "/var".to_string(),
        display_name: "/var (/dev/sda2)".to_string(),
        file_system: "ext4".to_string(),
        total_space: 100,
        used_space: used,
        available_space: 100_u64.saturating_sub(used),
    }
}

const NOW: i64 = 1_700_000_000_000_000_000;

#[test]
fn alert_state_sends_new_alert_then_suppresses_until_cooldown() {
    let cfg = test_config();
    let now = NOW;
    let state = empty_alert_state();
    let disks = vec![disk(90)];
    let thresholds = alert_thresholds(&cfg);

    let first = evaluate_alert_state(&cfg, &disks, &state, thresholds, now);
    assert_eq!(first.report_kind, Some(ReportKind::Alert));
    assert_eq!(first.events[0].kind, AlertEventKind::Alert);
    assert_eq!(first.events[0].severity, Some(AlertSeverity::Critical));

    let suppressed =
        evaluate_alert_state(&cfg, &disks, &first.state, thresholds, now + 6 * NANOS_PER_HOUR);
    assert_eq!(suppressed.report_kind, None);
    assert!(suppressed.events.is_empty());

    let reminder =
        evaluate_alert_state(&cfg, &disks, &first.state, thresholds, now + 12 * NANOS_PER_HOUR);
    assert_eq!(reminder.report_kind, Some(ReportKind::Reminder));
    assert_eq!(reminder.events[0].kind, AlertEventKind::Reminder);
}

#[test]
fn alert_state_waits_for_recovery_threshold_before_recovery_email() {
    let cfg = test_config();
    let now = NOW;
    let thresholds = alert_thresholds(&cfg);
    let active = evaluate_alert_state(&cfg, &[disk(90)], &empty_alert_state(), thresholds, now);

    let still_active =
        evaluate_alert_state(&cfg, &[disk(83)], &active.state, thresholds, now + NANOS_PER_HOUR);
    assert_eq!(still_active.report_kind, None);
    let alerts = &still_active.state.alerts;
    assert!((0..alerts.len()).any(|i| alerts.value_at(i).active));

    let recovered = evaluate_alert_state(
        &cfg,
        &[disk(82)],
        &active.state,
        thresholds,
        now + 2 * NANOS_PER_HOUR,
    );
    assert_eq!(recovered.report_kind, Some(ReportKind::Recovery));
    assert_eq!(recovered.events[0].kind, AlertEventKind::Recovery);
    assert_eq!(recovered.state.alerts.len(), 0);
}

#[test]
fn alert_state_sends_immediately_when_severity_escalates() {
    let cfg = test_config();
    let now = NOW;
    let thresholds = alert_thresholds(&cfg);
    let warning = evaluate_alert_state(&cfg, &[disk(86)], &empty_alert_state(), thresholds, now);

    let escalated =
        evaluate_alert_state(&cfg, &[disk(96)], &warning.state, thresholds, now + NANOS_PER_HOUR);
    assert_eq!(escalated.report_kind, Some(ReportKind::Alert));
    assert_eq!(escalated.events[0].kind, AlertEventKind::Escalation);
    assert_eq!(escalated.events[0].severity, Some(AlertSeverity::Emergency));
}

#[test]
fn first_alert_records_state_and_later_runs_keep_it() {
    let cfg = test_config();
    let thresholds = alert_thresholds(&cfg);
    let first = evaluate_alert_state(&cfg, &[disk(90)], &empty_alert_state(), thresholds, NOW);
    let entry = first.state.alerts.get("/var|ext4").unwrap();
    assert!(entry.active);
    assert_eq!(entry.first_alert_at, Some(NOW));
    assert_eq!(entry.last_notification_at, Some(NOW));
    assert_eq!(entry.last_severity, Some(AlertSeverity::Critical));
    assert_eq!(first.events[0].mount_key, "/var|ext4");
    assert_eq!(first.events[0].display_name, "/var (/dev/sda2)");

    let quiet =
        evaluate_alert_state(&cfg, &[disk(90)], &first.state, thresholds, NOW + NANOS_PER_HOUR);
    let entry = quiet.state.alerts.get("/var|ext4").unwrap();
    assert_eq!(entry.first_alert_at, Some(NOW));
    assert_eq!(entry.last_notification_at, Some(NOW));
}

#[test]
fn no_alert_below_warning_threshold() {
    let cfg = test_config();
    let thresholds = alert_thresholds(&cfg);
    let r = evaluate_alert_state(&cfg, &[disk(84)], &empty_alert_state(), thresholds, NOW);
    assert_eq!(r.report_kind, None);
    assert!(r.events.is_empty());
    assert_eq!(r.state.alerts.len(), 0);
}

#[test]
fn lower_severity_while_active_is_only_a_reminder_after_cooldown() {
    let cfg = test_config();
    let thresholds = alert_thresholds(&cfg);
    let first = evaluate_alert_state(&cfg, &[disk(96)], &empty_alert_state(), thresholds, NOW);
    assert_eq!(first.events[0].severity, Some(AlertSeverity::Emergency));
    let lower =
        evaluate_alert_state(&cfg, &[disk(86)], &first.state, thresholds, NOW + NANOS_PER_HOUR);
    assert_eq!(lower.report_kind, None);
    let later = evaluate_alert_state(
        &cfg,
        &[disk(86)],
        &first.state,
        thresholds,
        NOW + 13 * NANOS_PER_HOUR,
    );
    assert_eq!(later.report_kind, Some(ReportKind::Reminder));
    assert_eq!(later.events[0].severity, Some(AlertSeverity::Warning));
}

#[test]
fn recovery_without_email_when_disabled() {
    let mut cfg = test_config();
    cfg.send_recovery_email = Some(false);
    let thresholds = alert_thresholds(&cfg);
    let active = evaluate_alert_state(&cfg, &[disk(90)], &empty_alert_state(), thresholds, NOW);
    let recovered =
        evaluate_alert_state(&cfg, &[disk(50)], &active.state, thresholds, NOW + NANOS_PER_HOUR);
    assert_eq!(recovered.report_kind, None);
    assert!(recovered.events.is_empty());
    assert_eq!(recovered.state.alerts.len(), 0);
}

#[test]
fn unseen_active_mount_point_is_marked_empty() {
    let cfg = test_config();
    let thresholds = alert_thresholds(&cfg);
    let active = evaluate_alert_state(&cfg, &[disk(90)], &empty_alert_state(), thresholds, NOW);
    let r = evaluate_alert_state(&cfg, &[], &active.state, thresholds, NOW + NANOS_PER_HOUR);
    assert_eq!(r.report_kind, None);
    let entry = r.state.alerts.get("/var|ext4").unwrap();
    assert!(entry.active);
    assert_eq!(entry.last_seen.used, 0);
}

#[test]
fn default_recovery_threshold_is_the_warning_threshold() {
    let mut cfg = test_config();
    cfg.recovery_threshold_percent = None;
    let thresholds = alert_thresholds(&cfg);
    let active = evaluate_alert_state(&cfg, &[disk(90)], &empty_alert_state(), thresholds, NOW);
    let r = evaluate_alert_state(&cfg, &[disk(85)], &active.state, thresholds, NOW + 1);
    assert_eq!(r.report_kind, None);
    let r = evaluate_alert_state(&cfg, &[disk(84)], &active.state, thresholds, NOW + 1);
    assert_eq!(r.report_kind, Some(ReportKind::Recovery));
}
