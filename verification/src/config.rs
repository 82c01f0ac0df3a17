use vstd::prelude::*;

use crate::severity::AlertThresholds;

verus! {

/// Nanoseconds in one second; instants and durations are counted in nanoseconds.
pub const NANOS_PER_SECOND: i64 = 1_000_000_000;

/// Nanoseconds in one hour.
pub const NANOS_PER_HOUR: i64 = 3_600_000_000_000;

/// Nanoseconds in one day.
pub const NANOS_PER_DAY: i64 = 86_400_000_000_000;

/// Seconds in one day.
pub const SECONDS_PER_DAY: i64 = 86_400;

/// Warning threshold used when none is configured (hundredths of a percent).
pub const DEFAULT_WARNING: i64 = 8500;

/// Critical threshold used when none is configured (hundredths of a percent).
pub const DEFAULT_CRITICAL: i64 = 9000;

/// Emergency threshold used when none is configured (hundredths of a percent).
pub const DEFAULT_EMERGENCY: i64 = 9500;

/// Hours between reminders while an alert stays active, when none is configured.
pub const DEFAULT_COOLDOWN_HOURS: u32 = 12;

/// Settings of the monitor. Percentages are in hundredths of a percent of
/// used space (`8500` is 85%).
#[derive(Clone, Debug)]
pub struct Config {
    pub mail_enabled: bool,
    pub smtp_server: String,
    pub smtp_port: u16,
    pub smtp_user: String,
    pub smtp_pass: String,
    pub email_from: String,
    pub email_to: String,
    pub smtp_security: Option<String>,
    /// Older name of the warning threshold, used when that one is absent.
    pub threshold_percent: Option<i64>,
    pub warning_threshold_percent: Option<i64>,
    pub critical_threshold_percent: Option<i64>,
    pub emergency_threshold_percent: Option<i64>,
    pub alert_cooldown_hours: Option<u32>,
    pub recovery_threshold_percent: Option<i64>,
    pub send_recovery_email: Option<bool>,
    pub debug: Option<bool>,
    pub friendly_name: Option<String>,
    pub excluded_disks: Option<Vec<String>>,
}

/// Thresholds that a configuration sets, with 85/90/95% where absent.
pub open spec fn thresholds_of(cfg: Config) -> AlertThresholds {
    AlertThresholds {
        warning: match cfg.warning_threshold_percent {
            Some(w) => w,
            None => match cfg.threshold_percent {
                Some(t) => t,
                None => DEFAULT_WARNING,
            },
        },
        critical: match cfg.critical_threshold_percent {
            Some(c) => c,
            None => DEFAULT_CRITICAL,
        },
        emergency: match cfg.emergency_threshold_percent {
            Some(e) => e,
            None => DEFAULT_EMERGENCY,
        },
    }
}

/// Thresholds set by the configuration.
pub fn alert_thresholds(cfg: &Config) -> (r: AlertThresholds)
    ensures
        r == thresholds_of(*cfg),
{
    let warning = match cfg.warning_threshold_percent {
        Some(w) => w,
        None => match cfg.threshold_percent {
            Some(t) => t,
            None => DEFAULT_WARNING,
        },
    };
    let critical = match cfg.critical_threshold_percent {
        Some(c) => c,
        None => DEFAULT_CRITICAL,
    };
    let emergency = match cfg.emergency_threshold_percent {
        Some(e) => e,
        None => DEFAULT_EMERGENCY,
    };
    AlertThresholds { warning, critical, emergency }
}

/// Hours of the reminder cooldown set by the configuration.
pub open spec fn cooldown_hours_of(cfg: Config) -> u32 {
    match cfg.alert_cooldown_hours {
        Some(h) => h,
        None => DEFAULT_COOLDOWN_HOURS,
    }
}

/// The reminder cooldown, in nanoseconds.
pub fn alert_cooldown(cfg: &Config) -> (r: i128)
    ensures
        r == cooldown_hours_of(*cfg) as int * NANOS_PER_HOUR as int,
{
    let hours: u32 = match cfg.alert_cooldown_hours {
        Some(h) => h,
        None => DEFAULT_COOLDOWN_HOURS,
    };
    assert(hours as int * NANOS_PER_HOUR as int <= 0xffff_ffffint * 3_600_000_000_000int)
        by (nonlinear_arith)
        requires
            0 <= hours <= 0xffff_ffff,
            NANOS_PER_HOUR == 3_600_000_000_000,
    ;
    hours as i128 * NANOS_PER_HOUR as i128
}

/// Recovery threshold when none is configured: the given entry threshold.
pub fn default_recovery_threshold(threshold: i64) -> (r: i64)
    ensures
        r == threshold,
{
    threshold
}

/// Recovery threshold set by the configuration, or `threshold` where absent.
pub open spec fn recovery_threshold_of(cfg: Config, threshold: i64) -> i64 {
    match cfg.recovery_threshold_percent {
        Some(r) => r,
        None => threshold,
    }
}

/// The usage at or below which an active alert counts as recovered.
pub fn recovery_threshold(cfg: &Config, threshold: i64) -> (r: i64)
    ensures
        r == recovery_threshold_of(*cfg, threshold),
{
    match cfg.recovery_threshold_percent {
        Some(r) => r,
        None => default_recovery_threshold(threshold),
    }
}

/// Whether recovery emails are sent; yes unless configured otherwise.
pub open spec fn sends_recovery_email(cfg: Config) -> bool {
    match cfg.send_recovery_email {
        Some(b) => b,
        None => true,
    }
}

/// Whether recovery emails are sent.
pub fn send_recovery_email(cfg: &Config) -> (r: bool)
    ensures
        r == sends_recovery_email(*cfg),
{
    match cfg.send_recovery_email {
        Some(b) => b,
        None => true,
    }
}

} // verus!
