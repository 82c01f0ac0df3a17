use diskmon_mail::alert::{choose_report_kind, event_label, AlertEvent, AlertEventKind, ReportKind};
use diskmon_mail::config::Config;
use diskmon_mail::disk::DiskInfo;
use diskmon_mail::keyed_map::KeyedMap;
use diskmon_mail::report::{build_email_body, display_name, os_info};
use diskmon_mail::severity::{AlertSeverity, AlertThresholds, UsageRatio};
use diskmon_mail::system::SystemInfo;
use diskmon_mail::trend::TrendInfo;

fn config() -> Config {
    Config {
        mail_enabled: true,
        smtp_server: "smtp.example.com".to_string(),
        smtp_port: 587,
        smtp_user: String::new(),
        smtp_pass: String::new(),
        email_from: "admin@example.com".to_string(),
        email_to: "alerts@example.com".to_string(),
        smtp_security: None,
        threshold_percent: None,
        warning_threshold_percent: None,
        critical_threshold_percent: None,
        emergency_threshold_percent: None,
        alert_cooldown_hours: None,
        recovery_threshold_percent: None,
        send_recovery_email: None,
        debug: None,
        friendly_name: Some("Server <productie>".to_string()),
        excluded_disks: None,
    }
}

fn info() -> SystemInfo {
    SystemInfo {
        os_name: "Rocky".to_string(),
        os_version: "9".to_string(),
        architecture: "64-bit".to_string(),
        hostname: "srv1".to_string(),
        is_virtualized: true,
    }
}

fn th() -> AlertThresholds {
    AlertThresholds { warning: 8500, critical: 9000, emergency: 9500 }
}

fn disk(used: u64) -> DiskInfo {
    DiskInfo {
        mount_point: "/data".to_string(),
        display_name: "/data (/dev/sdb1)".to_string(),
        file_system: "xfs".to_string(),
        total_space: 100,
        used_space: used,
        available_space: 100 - used,
    }
}

fn event(kind: AlertEventKind) -> AlertEvent {
    AlertEvent {
        mount_key: "/data|xfs".to_string(),
        mount_point: "/data".to_string(),
        display_name: "/data (/dev/sdb1)".to_string(),
        used: UsageRatio { used: 91, total: 100 },
        severity: Some(AlertSeverity::Critical),
        kind,
    }
}

#[test]
fn report_kind_follows_the_strongest_event() {
    assert_eq!(choose_report_kind(&[]), None);
    assert_eq!(
        choose_report_kind(&[event(AlertEventKind::Recovery), event(AlertEventKind::Reminder)]),
        Some(ReportKind::Reminder)
    );
    assert_eq!(
        choose_report_kind(&[event(AlertEventKind::Reminder), event(AlertEventKind::Escalation)]),
        Some(ReportKind::Alert)
    );
    assert_eq!(choose_report_kind(&[event(AlertEventKind::Recovery)]), Some(ReportKind::Recovery));
    assert_eq!(event_label(AlertEventKind::Alert), "Alerta noua");
}

#[test]
fn names_in_reports() {
    let mut cfg = config();
    assert_eq!(display_name(&cfg, &info()), "Server <productie>");
    cfg.friendly_name = None;
    assert_eq!(display_name(&cfg, &info()), "srv1");
    assert_eq!(os_info(&info()), "Rocky 9 64-bit");
}

#[test]
fn email_body_holds_the_facts_of_the_run() {
    let trends: KeyedMap<TrendInfo> = KeyedMap::new();
    let body = build_email_body(
        &config(),
        &[disk(91)],
        &info(),
        ReportKind::Alert,
        th(),
        8200,
        &[event(AlertEventKind::Alert)],
        &trends,
        "17-11-2025 10:00:00",
    );
    assert!(body.starts_with("<!doctype html>"));
    assert!(body.contains("Server &lt;productie&gt; (srv1)"));
    assert!(body.contains("<tr><td>Data raport</td><td>17-11-2025 10:00:00</td></tr>"));
    assert!(body.contains("Warning 85.00% / Critical 90.00% / Emergency 95.00% ocupat"));
    assert!(body.contains("<tr><td>Prag revenire</td><td>82.00% ocupat</td></tr>"));
    assert!(body.contains("<tr><td>Mount point-uri peste prag</td><td>1</td></tr>"));
    assert!(body.contains("Verificare periodica"));
    assert!(!body.contains("Sumar executiv"));
    assert!(body.ends_with("</html>"));
}

#[test]
fn full_report_opens_with_the_summary() {
    let trends: KeyedMap<TrendInfo> = KeyedMap::new();
    let body = build_email_body(
        &config(),
        &[disk(10)],
        &info(),
        ReportKind::Forced,
        th(),
        8200,
        &[],
        &trends,
        "now",
    );
    assert!(body.contains("Sumar executiv"));
    assert!(body.contains("Raport zilnic / la cerere"));
    assert!(body.contains("Nu exista evenimente noi; raport complet."));
}
