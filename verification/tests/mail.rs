use diskmon_mail::alert::ReportKind;
use diskmon_mail::config::Config;
use diskmon_mail::disk::DiskInfo;
use diskmon_mail::mail::{
    after_failed_attempt, email_subject, mail_addresses, recipients, smtp_security, smtp_settings, use_auth,
    MailError, RetryStep, SmtpSecurity, SMTP_MAX_ATTEMPTS,
};
use diskmon_mail::severity::AlertThresholds;
use diskmon_mail::system::SystemInfo;

fn config() -> Config {
    Config {
        mail_enabled: true,
        smtp_server: "smtp.example.com".to_string(),
        smtp_port: 587,
        smtp_user: "user@example.com".to_string(),
        smtp_pass: "password".to_string(),
        email_from: "admin@example.com".to_string(),
        email_to: "alerts@example.com".to_string(),
        smtp_security: Some("starttls".to_string()),
        threshold_percent: None,
        warning_threshold_percent: None,
        critical_threshold_percent: None,
        emergency_threshold_percent: None,
        alert_cooldown_hours: None,
        recovery_threshold_percent: None,
        send_recovery_email: None,
        debug: None,
        friendly_name: Some("test".to_string()),
        excluded_disks: None,
    }
}

fn info() -> SystemInfo {
    SystemInfo {
        os_name: "Ubuntu".to_string(),
        os_version: "24.04".to_string(),
        architecture: "64-bit".to_string(),
        hostname: "host1".to_string(),
        is_virtualized: false,
    }
}

fn th() -> AlertThresholds {
    AlertThresholds { warning: 8500, critical: 9000, emergency: 9500 }
}

#[test]
fn security_mode_is_read_case_insensitively() {
    let mut cfg = config();
    assert_eq!(smtp_security(&cfg), SmtpSecurity::StartTls);
    cfg.smtp_security = Some("SSL".to_string());
    assert_eq!(smtp_security(&cfg), SmtpSecurity::Ssl);
    cfg.smtp_security = Some("None".to_string());
    assert_eq!(smtp_security(&cfg), SmtpSecurity::Plain);
    cfg.smtp_security = Some("tls".to_string());
    assert_eq!(smtp_security(&cfg), SmtpSecurity::StartTls);
    cfg.smtp_security = None;
    assert_eq!(smtp_security(&cfg), SmtpSecurity::StartTls);
}

#[test]
fn authentication_is_skipped_only_for_blank_credentials() {
    let mut cfg = config();
    assert!(use_auth(&cfg));
    cfg.smtp_user = "  ".to_string();
    cfg.smtp_pass = "".to_string();
    assert!(!use_auth(&cfg));
    cfg.smtp_pass = "x".to_string();
    assert!(use_auth(&cfg));
}

#[test]
fn recipients_are_trimmed_and_blank_entries_dropped() {
    assert_eq!(recipients(" a@x.ro , ,b@y.ro,"), vec!["a@x.ro", "b@y.ro"]);
    assert!(recipients("").is_empty());
}

#[test]
fn addresses_are_checked_in_order() {
    let mut cfg = config();
    cfg.email_to = "a@example.com, b@example.com".to_string();
    let a = mail_addresses(&cfg).unwrap();
    assert_eq!(a.to.len(), 2);
    assert_eq!(a.from.email.to_string(), "admin@example.com");

    cfg.email_from = "not an address".to_string();
    assert!(matches!(mail_addresses(&cfg), Err(MailError::InvalidSender(_))));

    cfg.email_from = "admin@example.com".to_string();
    cfg.email_to = "a@example.com, broken, also broken".to_string();
    match mail_addresses(&cfg) {
        Err(MailError::InvalidRecipient { address, .. }) => assert_eq!(address, "broken"),
        other => panic!("unexpected {:?}", other),
    }
}

#[test]
fn subject_names_the_machine() {
    let cfg = config();
    let disks = vec![DiskInfo {
        mount_point: "/".to_string(),
        display_name: "/ (/dev/sda1)".to_string(),
        file_system: "ext4".to_string(),
        total_space: 100,
        used_space: 10,
        available_space: 90,
    }];
    assert_eq!(
        email_subject(&cfg, &disks, &info(), ReportKind::Forced, th()),
        "🟢 [RAPORT OK] [RAPORT ZILNIC] System Disk Report - test (Ubuntu 24.04 64-bit)"
    );
    assert_eq!(
        email_subject(&cfg, &disks, &info(), ReportKind::Alert, th()),
        "🔴 [ALARMĂ] [DEPĂSIRE PRAG DE STOCARE] System Disk Report - test (Ubuntu 24.04 64-bit)"
    );
    let mut unnamed = config();
    unnamed.friendly_name = None;
    assert_eq!(
        email_subject(&unnamed, &disks, &info(), ReportKind::Recovery, th()),
        "🟢 [REVENIRE OK] [STOCARE] System Disk Report - host1 (Ubuntu 24.04 64-bit)"
    );
}

#[test]
fn retries_stop_after_three_attempts() {
    assert_eq!(SMTP_MAX_ATTEMPTS, 3);
    assert_eq!(
        after_failed_attempt(1, Some(1000)),
        RetryStep::Wait { delay_ms: 1000, next_attempt: 2 }
    );
    assert_eq!(after_failed_attempt(2, None), RetryStep::NoMoreDelays);
    assert_eq!(after_failed_attempt(3, Some(1000)), RetryStep::Exhausted);
}

#[test]
fn connection_settings_follow_the_configuration() {
    let mut cfg = config();
    cfg.smtp_security = None;
    let s = smtp_settings(&cfg);
    assert_eq!(s.server, "smtp.example.com");
    assert_eq!(s.port, 587);
    assert_eq!(s.security, SmtpSecurity::StartTls);
    assert_eq!(s.credentials, Some(("user@example.com".to_string(), "password".to_string())));
    cfg.smtp_security = Some("SSL".to_string());
    cfg.smtp_user = " ".to_string();
    cfg.smtp_pass = String::new();
    let s = smtp_settings(&cfg);
    assert_eq!(s.security, SmtpSecurity::Ssl);
    assert_eq!(s.credentials, None);
}
