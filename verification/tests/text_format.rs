use diskmon_mail::format::{
    format_growth, format_time_to_full, gb_string, percent_string, threshold_string,
};
use diskmon_mail::severity::{severity_for_percent, severity_html, severity_label, AlertSeverity, AlertThresholds, UsageRatio};
use diskmon_mail::text::{
    contains, escape_html, parse_u64, rounded_div, split_lines, split_text, split_words,
    starts_with, trim_text,
};

fn th() -> AlertThresholds {
    AlertThresholds { warning: 8500, critical: 9000, emergency: 9500 }
}

#[test]
fn escape_html_replaces_special_characters() {
    assert_eq!(escape_html("a & b <c> \"d\" 'e'"), "a &amp; b &lt;c&gt; &quot;d&quot; &#39;e&#39;");
    assert_eq!(escape_html("plain text"), "plain text");
    assert_eq!(escape_html("&amp;"), "&amp;amp;");
}

#[test]
fn rounding_is_half_to_even() {
    assert_eq!(rounded_div(5, 2), 2);
    assert_eq!(rounded_div(7, 2), 4);
    assert_eq!(rounded_div(8, 3), 3);
    assert_eq!(rounded_div(7, 3), 2);
}

#[test]
fn percentages_have_two_decimals() {
    assert_eq!(percent_string(UsageRatio { used: 1, total: 3 }), "33.33");
    assert_eq!(percent_string(UsageRatio { used: 2, total: 3 }), "66.67");
    assert_eq!(percent_string(UsageRatio { used: 90, total: 100 }), "90.00");
    assert_eq!(percent_string(UsageRatio { used: 5, total: 0 }), "0.00");
    assert_eq!(threshold_string(8500), "85.00");
    assert_eq!(threshold_string(-150), "-1.50");
}

#[test]
fn gigabytes_and_growth_are_formatted() {
    let gib: u64 = 1024 * 1024 * 1024;
    assert_eq!(gb_string(12 * gib + gib / 2), "12.50 GB");
    assert_eq!(format_growth(Some((12 * gib) as i64)), "+12.00 GB");
    assert_eq!(format_growth(Some(-((gib / 2) as i64))), "-0.50 GB");
    assert_eq!(format_growth(Some(0)), "+0.00 GB");
    assert_eq!(format_growth(None), "N/A");
}

#[test]
fn time_to_full_is_written_in_days_hours_or_minutes() {
    assert_eq!(format_time_to_full(Some(3 * 86_400)), "3 zile");
    assert_eq!(format_time_to_full(Some(2 * 86_400 + 1)), "3 zile");
    assert_eq!(format_time_to_full(Some(172_799)), "48 ore");
    assert_eq!(format_time_to_full(Some(7_200)), "2 ore");
    assert_eq!(format_time_to_full(Some(7_199)), "120 minute");
    assert_eq!(format_time_to_full(Some(1)), "1 minute");
    assert_eq!(format_time_to_full(Some(0)), "acum");
    assert_eq!(format_time_to_full(Some(-5)), "acum");
    assert_eq!(format_time_to_full(None), "N/A");
}

#[test]
fn severities_follow_thresholds() {
    assert_eq!(severity_for_percent(UsageRatio { used: 84, total: 100 }, th()), None);
    assert_eq!(
        severity_for_percent(UsageRatio { used: 85, total: 100 }, th()),
        Some(AlertSeverity::Warning)
    );
    assert_eq!(
        severity_for_percent(UsageRatio { used: 90, total: 100 }, th()),
        Some(AlertSeverity::Critical)
    );
    assert_eq!(
        severity_for_percent(UsageRatio { used: 95, total: 100 }, th()),
        Some(AlertSeverity::Emergency)
    );
    assert_eq!(severity_for_percent(UsageRatio { used: 0, total: 0 }, th()), None);
    assert_eq!(severity_label(AlertSeverity::Critical), "CRITICAL");
    assert!(severity_html(Some(AlertSeverity::Emergency)).contains("EMERGENCY"));
    assert!(severity_html(None).contains("OK"));
}

#[test]
fn trimming_uses_unicode_white_space() {
    assert_eq!(trim_text("  a b \t\n"), "a b");
    assert_eq!(trim_text("\u{a0}x\u{3000}"), "x");
    assert_eq!(trim_text("   "), "");
}

#[test]
fn splitting_keeps_empty_pieces() {
    assert_eq!(split_text("a,,b", ','), vec!["a", "", "b"]);
    assert_eq!(split_text("", ','), vec![""]);
    assert_eq!(split_text("a,", ','), vec!["a", ""]);
}

#[test]
fn words_skip_runs_of_white_space() {
    assert_eq!(split_words("  /dev/sda1   ext4 100  "), vec!["/dev/sda1", "ext4", "100"]);
    assert!(split_words(" \t ").is_empty());
}

#[test]
fn lines_drop_carriage_returns_and_final_newline() {
    assert_eq!(split_lines("a\r\nb\nc"), vec!["a", "b", "c"]);
    assert_eq!(split_lines("a\n"), vec!["a"]);
    assert_eq!(split_lines("a\n\nb\r"), vec!["a", "", "b\r"]);
    assert!(split_lines("").is_empty());
}

#[test]
fn numbers_parse_like_std() {
    assert_eq!(parse_u64("1024"), Some(1024));
    assert_eq!(parse_u64("+7"), Some(7));
    assert_eq!(parse_u64("18446744073709551615"), Some(u64::MAX));
    assert_eq!(parse_u64("18446744073709551616"), None);
    assert_eq!(parse_u64(""), None);
    assert_eq!(parse_u64("+"), None);
    assert_eq!(parse_u64("-1"), None);
    assert_eq!(parse_u64("12a"), None);
    for text in ["0", "42", "+3", "007", "x", " 1"] {
        assert_eq!(parse_u64(text), text.parse::<u64>().ok());
    }
}

#[test]
fn substring_and_prefix_search() {
    assert!(contains("/MNT/BACKUP", "BACK"));
    assert!(contains("abc", ""));
    assert!(!contains("ab", "abc"));
    assert!(starts_with("/proc/1", "/proc"));
    assert!(!starts_with("/pro", "/proc"));
}
