use vstd::prelude::*;

use crate::alert::{AlertEvent, AlertEventKind, ReportKind, event_label, event_label_text};
use crate::config::Config;
use crate::disk::{
    DiskInfo, alert_disks, alerting, disk_severity, free_of, mount_key, mount_key_text, used_of,
};
use crate::format::{
    format_growth, format_time_to_full, gb_hundredths, growth_text, percent_text, push_percent,
    push_threshold, threshold_text, time_to_full_text, BYTES_PER_GB,
};
use crate::keyed_map::KeyedMap;
use crate::severity::{
    AlertSeverity, AlertThresholds, severity_color, severity_color_text, severity_for_percent,
    severity_html, severity_html_text, severity_label, severity_label_text, severity_rank,
    severity_row_color, severity_row_color_text,
};
use crate::summary::{build_executive_summary, executive_summary_text};
use crate::system::SystemInfo;
use crate::text::{decimal, escape_text, fixed2, push_decimal, push_escaped, push_fixed2};
use crate::trend::TrendInfo;

verus! {

/// Start of the report page, up to the colour of the status banner.
pub open spec fn page_start_text() -> Seq<char> {
    "<!doctype html>\n"@
        + "<html>\n"@
        + "<head>\n"@
        + "  <meta charset=\"utf-8\">\n"@
        + "  <style>\n"@
        + "    body { margin:0; padding:0; background:#f4f6f8; font-family:Arial, Helvetica, sans-serif; color:#111827; }\n"@
        + "    .wrap { max-width:920px; margin:0 auto; padding:24px; }\n"@
        + "    .panel { background:#ffffff; border:1px solid #d9e2ec; border-radius:8px; overflow:hidden; }\n"@
        + "    .header { padding:22px 24px; background:#0f172a; color:#ffffff; }\n"@
        + "    .header h1 { margin:0 0 8px; font-size:22px; font-weight:700; }\n"@
        + "    .header p { margin:0; color:#cbd5e1; font-size:14px; }\n"@
        + "    .executive { padding:20px 24px; border-bottom:1px solid #e5e7eb; }\n"@
        + "    .executive h2 { margin:0 0 14px; font-size:18px; }\n"@
        + "    .executive h3 { margin:18px 0 8px; font-size:14px; color:#344054; }\n"@
        + "    .kpis { display:grid; grid-template-columns:repeat(5, 1fr); gap:8px; }\n"@
        + "    .kpis div { border:1px solid #e5e7eb; border-radius:6px; padding:10px; background:#f8fafc; }\n"@
        + "    .kpis span { display:block; color:#667085; font-size:11px; font-weight:700; }\n"@
        + "    .kpis strong { display:block; margin-top:4px; font-size:18px; }\n"@
        + "    table.mini { width:100%; border-collapse:collapse; font-size:12px; }\n"@
        + "    table.mini th { background:#f8fafc; color:#344054; text-align:left; padding:8px; border-bottom:1px solid #e5e7eb; }\n"@
        + "    table.mini td { padding:8px; border-bottom:1px solid #edf2f7; }\n"@
        + "    .recommendations { margin:0; padding-left:16px; color:#475467; font-size:12px; line-height:1.4; }\n"@
        + "    .recommendations li { margin:3px 0; font-weight:400; }\n"@
        + "    .empty { margin:0; color:#667085; font-size:12px; }\n"@
        + "    .summary { padding:18px 24px; border-bottom:1px solid #e5e7eb; }\n"@
        + "    .status { display:inline-block; padding:6px 10px; border-radius:6px; background:"@
}

fn push_page_start(s: &mut String)
    ensures
        final(s)@ == old(s)@ + page_start_text(),
{
    let mut t = String::from_str("<!doctype html>\n");
    t.append("<html>\n");
    t.append("<head>\n");
    t.append("  <meta charset=\"utf-8\">\n");
    t.append("  <style>\n");
    t.append("    body { margin:0; padding:0; background:#f4f6f8; font-family:Arial, Helvetica, sans-serif; color:#111827; }\n");
    t.append("    .wrap { max-width:920px; margin:0 auto; padding:24px; }\n");
    t.append("    .panel { background:#ffffff; border:1px solid #d9e2ec; border-radius:8px; overflow:hidden; }\n");
    t.append("    .header { padding:22px 24px; background:#0f172a; color:#ffffff; }\n");
    t.append("    .header h1 { margin:0 0 8px; font-size:22px; font-weight:700; }\n");
    t.append("    .header p { margin:0; color:#cbd5e1; font-size:14px; }\n");
    t.append("    .executive { padding:20px 24px; border-bottom:1px solid #e5e7eb; }\n");
    t.append("    .executive h2 { margin:0 0 14px; font-size:18px; }\n");
    t.append("    .executive h3 { margin:18px 0 8px; font-size:14px; color:#344054; }\n");
    t.append("    .kpis { display:grid; grid-template-columns:repeat(5, 1fr); gap:8px; }\n");
    t.append("    .kpis div { border:1px solid #e5e7eb; border-radius:6px; padding:10px; background:#f8fafc; }\n");
    t.append("    .kpis span { display:block; color:#667085; font-size:11px; font-weight:700; }\n");
    t.append("    .kpis strong { display:block; margin-top:4px; font-size:18px; }\n");
    t.append("    table.mini { width:100%; border-collapse:collapse; font-size:12px; }\n");
    t.append("    table.mini th { background:#f8fafc; color:#344054; text-align:left; padding:8px; border-bottom:1px solid #e5e7eb; }\n");
    t.append("    table.mini td { padding:8px; border-bottom:1px solid #edf2f7; }\n");
    t.append("    .recommendations { margin:0; padding-left:16px; color:#475467; font-size:12px; line-height:1.4; }\n");
    t.append("    .recommendations li { margin:3px 0; font-weight:400; }\n");
    t.append("    .empty { margin:0; color:#667085; font-size:12px; }\n");
    t.append("    .summary { padding:18px 24px; border-bottom:1px solid #e5e7eb; }\n");
    t.append("    .status { display:inline-block; padding:6px 10px; border-radius:6px; background:");
    s.append(t.as_str());
}

/// Rest of the style sheet and the start of the page header.
pub open spec fn page_header_text() -> Seq<char> {
    "; color:#ffffff; font-weight:700; font-size:12px; letter-spacing:.3px; }\n"@
        + "    .meta { width:100%; margin-top:14px; border-collapse:collapse; font-size:14px; }\n"@
        + "    .meta td { padding:4px 0; }\n"@
        + "    .meta td:first-child { color:#344054; width:180px; font-weight:700; }\n"@
        + "    table.disks { width:100%; border-collapse:collapse; font-size:13px; }\n"@
        + "    table.disks th { background:#f8fafc; color:#344054; text-align:left; padding:10px 12px; border-bottom:1px solid #e5e7eb; }\n"@
        + "    table.disks td { padding:10px 12px; border-bottom:1px solid #edf2f7; vertical-align:middle; }\n"@
        + "    table.disks td.mount { font-weight:700; color:#111827; }\n"@
        + "    .num { text-align:right; white-space:nowrap; }\n"@
        + "    .badge { display:inline-block; min-width:54px; text-align:center; padding:4px 8px; border-radius:999px; font-size:12px; font-weight:700; }\n"@
        + "    .badge-ok { background:#bbf7d0; color:#166534; }\n"@
        + "    .badge-warning { background:#fde68a; color:#92400e; }\n"@
        + "    .badge-alert { background:#fecaca; color:#991b1b; }\n"@
        + "    .badge-emergency { background:#fca5a5; color:#7f1d1d; }\n"@
        + "    .text-ok { color:#15803d; font-weight:800; }\n"@
        + "    .text-warning { color:#a16207; font-weight:800; }\n"@
        + "    .text-critical { color:#b91c1c; font-weight:800; }\n"@
        + "    .text-emergency { color:#7f1d1d; font-weight:900; }\n"@
        + "    .footer { padding:14px 24px; color:#667085; font-size:12px; }\n"@
        + "  </style>\n"@
        + "</head>\n"@
        + "<body>\n"@
        + "  <div class=\"wrap\">\n"@
        + "    <div class=\"panel\">\n"@
        + "      <div class=\"header\">\n"@
        + "        <h1>Raport spatiu de stocare</h1>\n"@
        + "        <p>"@
}

fn push_page_header(s: &mut String)
    ensures
        final(s)@ == old(s)@ + page_header_text(),
{
    let mut t = String::from_str("; color:#ffffff; font-weight:700; font-size:12px; letter-spacing:.3px; }\n");
    t.append("    .meta { width:100%; margin-top:14px; border-collapse:collapse; font-size:14px; }\n");
    t.append("    .meta td { padding:4px 0; }\n");
    t.append("    .meta td:first-child { color:#344054; width:180px; font-weight:700; }\n");
    t.append("    table.disks { width:100%; border-collapse:collapse; font-size:13px; }\n");
    t.append("    table.disks th { background:#f8fafc; color:#344054; text-align:left; padding:10px 12px; border-bottom:1px solid #e5e7eb; }\n");
    t.append("    table.disks td { padding:10px 12px; border-bottom:1px solid #edf2f7; vertical-align:middle; }\n");
    t.append("    table.disks td.mount { font-weight:700; color:#111827; }\n");
    t.append("    .num { text-align:right; white-space:nowrap; }\n");
    t.append("    .badge { display:inline-block; min-width:54px; text-align:center; padding:4px 8px; border-radius:999px; font-size:12px; font-weight:700; }\n");
    t.append("    .badge-ok { background:#bbf7d0; color:#166534; }\n");
    t.append("    .badge-warning { background:#fde68a; color:#92400e; }\n");
    t.append("    .badge-alert { background:#fecaca; color:#991b1b; }\n");
    t.append("    .badge-emergency { background:#fca5a5; color:#7f1d1d; }\n");
    t.append("    .text-ok { color:#15803d; font-weight:800; }\n");
    t.append("    .text-warning { color:#a16207; font-weight:800; }\n");
    t.append("    .text-critical { color:#b91c1c; font-weight:800; }\n");
    t.append("    .text-emergency { color:#7f1d1d; font-weight:900; }\n");
    t.append("    .footer { padding:14px 24px; color:#667085; font-size:12px; }\n");
    t.append("  </style>\n");
    t.append("</head>\n");
    t.append("<body>\n");
    t.append("  <div class=\"wrap\">\n");
    t.append("    <div class=\"panel\">\n");
    t.append("      <div class=\"header\">\n");
    t.append("        <h1>Raport spatiu de stocare</h1>\n");
    t.append("        <p>");
    s.append(t.as_str());
}

/// End of the summary and the head of the disk table.
pub open spec fn disk_table_start_text() -> Seq<char> {
    "</td></tr>\n"@
        + "        </table>\n"@
        + "      </div>\n"@
        + "      <table class=\"disks\">\n"@
        + "        <thead>\n"@
        + "          <tr>\n"@
        + "            <th>Punct montare</th>\n"@
        + "            <th>Sistem fisiere</th>\n"@
        + "            <th class=\"num\">Spatiu total</th>\n"@
        + "            <th class=\"num\">Spatiu utilizat</th>\n"@
        + "            <th class=\"num\">Spatiu disponibil</th>\n"@
        + "            <th class=\"num\">Spatiu liber</th>\n"@
        + "            <th class=\"num\">Grad ocupare</th>\n"@
        + "            <th class=\"num\">Crestere 24h</th>\n"@
        + "            <th class=\"num\">Crestere 7 zile</th>\n"@
        + "            <th class=\"num\">Crestere 30 zile</th>\n"@
        + "            <th>Estimare umplere</th>\n"@
        + "            <th>Severitate</th>\n"@
        + "            <th>Status</th>\n"@
        + "          </tr>\n"@
        + "        </thead>\n"@
        + "        <tbody>"@
}

fn push_disk_table_start(s: &mut String)
    ensures
        final(s)@ == old(s)@ + disk_table_start_text(),
{
    let mut t = String::from_str("</td></tr>\n");
    t.append("        </table>\n");
    t.append("      </div>\n");
    t.append("      <table class=\"disks\">\n");
    t.append("        <thead>\n");
    t.append("          <tr>\n");
    t.append("            <th>Punct montare</th>\n");
    t.append("            <th>Sistem fisiere</th>\n");
    t.append("            <th class=\"num\">Spatiu total</th>\n");
    t.append("            <th class=\"num\">Spatiu utilizat</th>\n");
    t.append("            <th class=\"num\">Spatiu disponibil</th>\n");
    t.append("            <th class=\"num\">Spatiu liber</th>\n");
    t.append("            <th class=\"num\">Grad ocupare</th>\n");
    t.append("            <th class=\"num\">Crestere 24h</th>\n");
    t.append("            <th class=\"num\">Crestere 7 zile</th>\n");
    t.append("            <th class=\"num\">Crestere 30 zile</th>\n");
    t.append("            <th>Estimare umplere</th>\n");
    t.append("            <th>Severitate</th>\n");
    t.append("            <th>Status</th>\n");
    t.append("          </tr>\n");
    t.append("        </thead>\n");
    t.append("        <tbody>");
    s.append(t.as_str());
}

/// End of the disk table and of the page.
pub open spec fn page_end_text() -> Seq<char> {
    "</tbody>\n"@
        + "      </table>\n"@
        + "      <div class=\"footer\">Raport generat automat de diskmon-mail.</div>\n"@
        + "    </div>\n"@
        + "  </div>\n"@
        + "</body>\n"@
        + "</html>"@
}

fn push_page_end(s: &mut String)
    ensures
        final(s)@ == old(s)@ + page_end_text(),
{
    let mut t = String::from_str("</tbody>\n");
    t.append("      </table>\n");
    t.append("      <div class=\"footer\">Raport generat automat de diskmon-mail.</div>\n");
    t.append("    </div>\n");
    t.append("  </div>\n");
    t.append("</body>\n");
    t.append("</html>");
    s.append(t.as_str());
}

/// Name shown for the machine: the configured friendly name, else the hostname.
pub open spec fn display_name_text(cfg: Config, info: SystemInfo) -> Seq<char> {
    match cfg.friendly_name {
        Some(n) => n@,
        None => info.hostname@,
    }
}

/// Name shown for the machine.
pub fn display_name<'a>(cfg: &'a Config, info: &'a SystemInfo) -> (r: &'a str)
    ensures
        r@ == display_name_text(*cfg, *info),
{
    match &cfg.friendly_name {
        Some(n) => n.as_str(),
        None => info.hostname.as_str(),
    }
}

/// Operating system name, version and architecture, separated by spaces.
pub open spec fn os_info_text(info: SystemInfo) -> Seq<char> {
    info.os_name@ + seq![' '] + info.os_version@ + seq![' '] + info.architecture@
}

/// Operating system name, version and architecture.
pub fn os_info(info: &SystemInfo) -> (r: String)
    ensures
        r@ == os_info_text(*info),
{
    let mut s = info.os_name.clone();
    crate::text::push_char(&mut s, ' ');
    s.append(info.os_version.as_str());
    crate::text::push_char(&mut s, ' ');
    s.append(info.architecture.as_str());
    assert(s@ =~= os_info_text(*info));
    s
}

/// Label of the status banner for a kind of report.
pub open spec fn status_label_text(kind: ReportKind) -> Seq<char> {
    match kind {
        ReportKind::Forced => "RAPORT"@,
        ReportKind::Alert => "ALERTA"@,
        ReportKind::Reminder => "REMINDER"@,
        ReportKind::Recovery => "REVENIRE"@,
    }
}

fn status_label(kind: ReportKind) -> (r: &'static str)
    ensures
        r@ == status_label_text(kind),
{
    match kind {
        ReportKind::Forced => "RAPORT",
        ReportKind::Alert => "ALERTA",
        ReportKind::Reminder => "REMINDER",
        ReportKind::Recovery => "REVENIRE",
    }
}

/// The highest severity among the disks, if any disk has one.
pub open spec fn highest_severity(disks: Seq<DiskInfo>, th: AlertThresholds) -> Option<
    AlertSeverity,
>
    decreases disks.len(),
{
    if disks.len() == 0 {
        None
    } else {
        let prev = highest_severity(disks.drop_last(), th);
        match disk_severity(disks.last(), th) {
            Some(s) => match prev {
                Some(p) => if severity_rank(s) >= severity_rank(p) {
                    Some(s)
                } else {
                    Some(p)
                },
                None => Some(s),
            },
            None => prev,
        }
    }
}

/// The highest severity is the severity of some disk, and no disk has a
/// higher one; there is none exactly when no disk has a severity.
pub proof fn law_highest_severity(disks: Seq<DiskInfo>, th: AlertThresholds)
    ensures
        highest_severity(disks, th) is None <==> forall|i: int|
            0 <= i < disks.len() ==> (#[trigger] disk_severity(disks[i], th)) is None,
        highest_severity(disks, th) matches Some(h) ==> exists|i: int|
            0 <= i < disks.len() && #[trigger] disk_severity(disks[i], th) == Some(h),
        highest_severity(disks, th) matches Some(h) ==> forall|i: int|
            0 <= i < disks.len() && (#[trigger] disk_severity(disks[i], th)) is Some ==> severity_rank(
                disk_severity(disks[i], th)->0,
            ) <= severity_rank(h),
    decreases disks.len(),
{
    if disks.len() > 0 {
        let t = disks.drop_last();
        law_highest_severity(t, th);
        assert forall|i: int| 0 <= i < t.len() implies disk_severity(#[trigger] t[i], th)
            == disk_severity(disks[i], th) by {
            assert(t[i] == disks[i]);
        }
        let last = disks.len() - 1;
        assert(disks[last] == disks.last());
        if highest_severity(disks, th) is None {
            assert forall|i: int| 0 <= i < disks.len() implies (#[trigger] disk_severity(
                disks[i],
                th,
            )) is None by {
                if i < last {
                    assert(disk_severity(t[i], th) is None);
                }
            }
        }
        match highest_severity(disks, th) {
            Some(h) => {
                if disk_severity(disks.last(), th) == Some(h) {
                    assert(disk_severity(disks[last], th) == Some(h));
                } else {
                    let i = choose|i: int| 0 <= i < t.len() && #[trigger] disk_severity(t[i], th) == Some(h);
                    assert(disk_severity(disks[i], th) == Some(h));
                }
                assert forall|i: int|
                    0 <= i < disks.len() && (#[trigger] disk_severity(disks[i], th)) is Some implies severity_rank(
                    disk_severity(disks[i], th)->0,
                ) <= severity_rank(h) by {
                    if i < last {
                        assert(disk_severity(t[i], th) is Some);
                    }
                }
            },
            None => {},
        }
    }
}

/// The banner of an alert or a reminder has the colour of the highest
/// severity among the disks: the severity of some disk, which no disk's
/// severity exceeds.
pub proof fn law_banner_colour(kind: ReportKind, disks: Seq<DiskInfo>, th: AlertThresholds)
    requires
        kind == ReportKind::Alert || kind == ReportKind::Reminder,
        exists|i: int| 0 <= i < disks.len() && (#[trigger] disk_severity(disks[i], th)) is Some,
    ensures
        exists|h: AlertSeverity|
            #![trigger severity_color_text(h)]
            status_color_text(kind, disks, th) == severity_color_text(h) && (exists|i: int|
                0 <= i < disks.len() && #[trigger] disk_severity(disks[i], th) == Some(h))
                && forall|i: int|
                0 <= i < disks.len() && (#[trigger] disk_severity(disks[i], th)) is Some
                    ==> severity_rank(disk_severity(disks[i], th)->0) <= severity_rank(h),
{
    law_highest_severity(disks, th);
    let h = highest_severity(disks, th)->0;
    assert(status_color_text(kind, disks, th) == severity_color_text(h));
}

fn find_highest_severity(disks: &[DiskInfo], thresholds: AlertThresholds) -> (r: Option<
    AlertSeverity,
>)
    ensures
        r == highest_severity(disks@, thresholds),
{
    let mut best: Option<AlertSeverity> = None;
    let n = disks.len();
    let mut i: usize = 0;
    while i < n
        invariant
            n == disks@.len(),
            i <= n,
            best == highest_severity(disks@.take(i as int), thresholds),
        decreases n - i,
    {
        assert(disks@.take(i + 1).drop_last() =~= disks@.take(i as int));
        assert(disks@.take(i + 1).last() == disks@[i as int]);
        match severity_for_percent(disks[i].used_ratio(), thresholds) {
            Some(s) => {
                best = match best {
                    Some(p) => if s.rank() >= p.rank() {
                        Some(s)
                    } else {
                        Some(p)
                    },
                    None => Some(s),
                };
            },
            None => {},
        }
        i = i + 1;
    }
    assert(disks@.take(n as int) =~= disks@);
    best
}

/// Colour of the status banner: the colour of the highest severity for
/// alerts and reminders (dark red when none), green for full reports and
/// recoveries.
pub open spec fn status_color_text(
    kind: ReportKind,
    disks: Seq<DiskInfo>,
    th: AlertThresholds,
) -> Seq<char> {
    match kind {
        ReportKind::Alert | ReportKind::Reminder => match highest_severity(disks, th) {
            Some(s) => severity_color_text(s),
            None => "#b42318"@,
        },
        _ => "#027a48"@,
    }
}

fn status_color(kind: ReportKind, disks: &[DiskInfo], thresholds: AlertThresholds) -> (r:
    &'static str)
    ensures
        r@ == status_color_text(kind, disks@, thresholds),
{
    match kind {
        ReportKind::Alert | ReportKind::Reminder => match find_highest_severity(
            disks,
            thresholds,
        ) {
            Some(s) => severity_color(s),
            None => "#b42318",
        },
        _ => "#027a48",
    }
}

/// Kind of the last event about mount key `key`, if any.
pub open spec fn event_for(events: Seq<AlertEvent>, key: Seq<char>) -> Option<AlertEventKind>
    decreases events.len(),
{
    if events.len() == 0 {
        None
    } else if events.last().mount_key@ == key {
        Some(events.last().kind)
    } else {
        event_for(events.drop_last(), key)
    }
}

fn find_event(events: &[AlertEvent], key: &String) -> (r: Option<AlertEventKind>)
    ensures
        r == event_for(events@, key@),
{
    let mut found: Option<AlertEventKind> = None;
    let n = events.len();
    let mut i: usize = 0;
    while i < n
        invariant
            n == events@.len(),
            i <= n,
            found == event_for(events@.take(i as int), key@),
        decreases n - i,
    {
        assert(events@.take(i + 1).drop_last() =~= events@.take(i as int));
        assert(events@.take(i + 1).last() == events@[i as int]);
        if events[i].mount_key == *key {
            found = Some(events[i].kind);
        }
        i = i + 1;
    }
    assert(events@.take(n as int) =~= events@);
    found
}

/// Line describing one event: kind, severity, mount point and usage.
pub open spec fn event_line(e: AlertEvent) -> Seq<char> {
    event_label_text(e.kind) + match e.severity {
        Some(s) => seq![' '] + severity_label_text(s),
        None => Seq::empty(),
    } + ": "@ + escape_text(e.display_name@) + " ("@ + percent_text(e.used) + "% ocupat)"@
}

/// Lines joined by `<br>`.
pub open spec fn joined_lines(lines: Seq<Seq<char>>) -> Seq<char>
    decreases lines.len(),
{
    if lines.len() == 0 {
        Seq::empty()
    } else if lines.len() == 1 {
        lines[0]
    } else {
        joined_lines(lines.drop_last()) + "<br>"@ + lines.last()
    }
}

/// The events, one line each, or a note that there are none.
pub open spec fn event_summary_text(events: Seq<AlertEvent>) -> Seq<char> {
    if events.len() == 0 {
        "Nu exista evenimente noi; raport complet."@
    } else {
        joined_lines(Seq::new(events.len(), |i: int| event_line(events[i])))
    }
}

fn push_event_line(s: &mut String, e: &AlertEvent)
    ensures
        final(s)@ == old(s)@ + event_line(*e),
{
    s.append(event_label(e.kind));
    match e.severity {
        Some(sev) => {
            crate::text::push_char(s, ' ');
            s.append(severity_label(sev));
        },
        None => {},
    }
    s.append(": ");
    push_escaped(s, e.display_name.as_str());
    s.append(" (");
    push_percent(s, e.used);
    s.append("% ocupat)");
    assert(s@ =~= old(s)@ + event_line(*e));
}

fn event_summary(events: &[AlertEvent]) -> (r: String)
    ensures
        r@ == event_summary_text(events@),
{
    if events.len() == 0 {
        return String::from_str("Nu exista evenimente noi; raport complet.");
    }
    let ghost lines = Seq::new(events@.len(), |i: int| event_line(events@[i]));
    let mut s = String::new();
    let n = events.len();
    let mut i: usize = 0;
    assert(s@ =~= joined_lines(lines.take(0)));
    while i < n
        invariant
            n == events@.len(),
            i <= n,
            lines == Seq::new(events@.len(), |i: int| event_line(events@[i])),
            s@ == joined_lines(lines.take(i as int)),
        decreases n - i,
    {
        if i > 0 {
            s.append("<br>");
        }
        push_event_line(&mut s, &events[i]);
        proof {
            let t = lines.take(i + 1);
            assert(t.drop_last() =~= lines.take(i as int));
            assert(t.last() == event_line(events@[i as int]));
            if i == 0 {
                assert(t.len() == 1);
                assert(s@ =~= t[0]);
            }
            assert(s@ =~= joined_lines(t));
        }
        i = i + 1;
    }
    assert(lines.take(n as int) =~= lines);
    s
}

/// Position of the first disk with mount key `key`.
pub open spec fn first_with_key(disks: Seq<DiskInfo>, key: Seq<char>) -> Option<int> {
    if exists|i: int| 0 <= i < disks.len() && mount_key_text(#[trigger] disks[i]) == key {
        Some(
            choose|i: int|
                0 <= i < disks.len() && mount_key_text(#[trigger] disks[i]) == key && forall|j: int|
                    0 <= j < i ==> mount_key_text(#[trigger] disks[j]) != key,
        )
    } else {
        None
    }
}

fn find_first_with_key(disks: &[DiskInfo], key: &String) -> (r: Option<usize>)
    ensures
        r matches Some(i) ==> first_with_key(disks@, key@) == Some(i as int) && i < disks@.len(),
        r is None ==> first_with_key(disks@, key@) is None,
{
    let n = disks.len();
    let mut i: usize = 0;
    while i < n
        invariant
            n == disks@.len(),
            i <= n,
            forall|j: int| 0 <= j < i ==> mount_key_text(#[trigger] disks@[j]) != key@,
        decreases n - i,
    {
        let k = mount_key(&disks[i]);
        if k == *key {
            proof {
                let c = choose|c: int|
                    0 <= c < disks@.len() && mount_key_text(#[trigger] disks@[c]) == key@ && forall|
                        j: int,
                    | 0 <= j < c ==> mount_key_text(#[trigger] disks@[j]) != key@;
                assert(mount_key_text(disks@[i as int]) == key@);
                if c < i {
                } else if c > i {
                    assert(mount_key_text(disks@[i as int]) != key@);
                }
            }
            return Some(i);
        }
        i = i + 1;
    }
    None
}

/// Line about a mount point whose growth is abnormal.
pub open spec fn abnormal_line(d: DiskInfo) -> Seq<char> {
    escape_text(d.display_name@) + ": crestere anormala fata de media ultimelor 7 zile"@
}

/// Lines about the abnormal trends, in key order, for the trends whose
/// mount point is among the disks.
pub open spec fn trend_lines(
    keys: Seq<Seq<char>>,
    values: Seq<TrendInfo>,
    disks: Seq<DiskInfo>,
) -> Seq<Seq<char>>
    decreases keys.len(),
{
    if keys.len() == 0 || values.len() < keys.len() {
        Seq::empty()
    } else {
        let prev = trend_lines(keys.drop_last(), values, disks);
        let k = keys.last();
        let t = values[keys.len() - 1];
        if t.abnormal_growth && first_with_key(disks, k) is Some {
            prev.push(abnormal_line(disks[first_with_key(disks, k)->0]))
        } else {
            prev
        }
    }
}

/// The abnormal trends, one line each, or a note that there are none.
pub open spec fn trend_summary_text(trends: KeyedMap<TrendInfo>, disks: Seq<DiskInfo>) -> Seq<char> {
    let lines = trend_lines(trends.keys(), trends.values(), disks);
    if lines.len() == 0 {
        "Nu exista cresteri anormale detectate."@
    } else {
        joined_lines(lines)
    }
}

fn trend_summary(trends: &KeyedMap<TrendInfo>, disks: &[DiskInfo]) -> (r: String)
    ensures
        r@ == trend_summary_text(*trends, disks@),
{
    proof {
        trends.lemma_sizes();
    }
    let ghost keys = trends.keys();
    let ghost values = trends.values();
    let mut s = String::new();
    let mut count: usize = 0;
    let n = trends.len();
    let mut i: usize = 0;
    assert(keys.take(0) =~= Seq::<Seq<char>>::empty());
    while i < n
        invariant
            n == keys.len(),
            keys.len() == values.len(),
            keys == trends.keys(),
            values == trends.values(),
            i <= n,
            count == trend_lines(keys.take(i as int), values, disks@).len(),
            s@ == joined_lines(trend_lines(keys.take(i as int), values, disks@)),
            count <= i,
        decreases n - i,
    {
        let ghost prev = trend_lines(keys.take(i as int), values, disks@);
        assert(keys.take(i + 1).drop_last() =~= keys.take(i as int));
        assert(keys.take(i + 1).last() == keys[i as int]);
        let t = trends.value_at(i);
        if t.abnormal_growth {
            match find_first_with_key(disks, trends.key_at(i)) {
                Some(j) => {
                    if count > 0 {
                        s.append("<br>");
                    }
                    push_escaped(&mut s, disks[j].display_name.as_str());
                    s.append(": crestere anormala fata de media ultimelor 7 zile");
                    proof {
                        let next = prev.push(abnormal_line(disks@[j as int]));
                        assert(next.drop_last() =~= prev);
                        if count == 0 {
                            assert(s@ =~= next[0]);
                        }
                        assert(s@ =~= joined_lines(next));
                    }
                    count = count + 1;
                },
                None => {},
            }
        }
        i = i + 1;
    }
    assert(keys.take(n as int) =~= keys);
    if count == 0 {
        return String::from_str("Nu exista cresteri anormale detectate.");
    }
    s
}

/// Background colour of a disk's row.
pub open spec fn row_color_text(sev: Option<AlertSeverity>, ev: Option<AlertEventKind>) -> Seq<char> {
    match sev {
        Some(s) => severity_row_color_text(s),
        None => if ev == Some(AlertEventKind::Recovery) {
            "#ecfdf3"@
        } else {
            "#f0fdf4"@
        },
    }
}

/// Badge of a disk's row: its event if it has one, else its severity.
pub open spec fn badge_text(ev: Option<AlertEventKind>, sev: Option<AlertSeverity>) -> Seq<char> {
    match ev {
        Some(AlertEventKind::Alert) => "<span class=\"badge badge-alert\">Nou</span>"@,
        Some(AlertEventKind::Escalation) => "<span class=\"badge badge-alert\">Escaladat</span>"@,
        Some(AlertEventKind::Reminder) => "<span class=\"badge badge-alert\">Reminder</span>"@,
        Some(AlertEventKind::Recovery) => "<span class=\"badge badge-ok\">Revenit</span>"@,
        None => match sev {
            Some(AlertSeverity::Warning) => "<span class=\"badge badge-warning\">WARNING</span>"@,
            Some(AlertSeverity::Critical) => "<span class=\"badge badge-alert\">CRITICAL</span>"@,
            Some(AlertSeverity::Emergency) => "<span class=\"badge badge-emergency\">EMERGENCY</span>"@,
            None => "<span class=\"badge badge-ok\">OK</span>"@,
        },
    }
}

fn row_color(sev: Option<AlertSeverity>, ev: Option<AlertEventKind>) -> (r: &'static str)
    ensures
        r@ == row_color_text(sev, ev),
{
    match sev {
        Some(s) => severity_row_color(s),
        None => match ev {
            Some(AlertEventKind::Recovery) => "#ecfdf3",
            _ => "#f0fdf4",
        },
    }
}

fn badge(ev: Option<AlertEventKind>, sev: Option<AlertSeverity>) -> (r: &'static str)
    ensures
        r@ == badge_text(ev, sev),
{
    match ev {
        Some(AlertEventKind::Alert) => "<span class=\"badge badge-alert\">Nou</span>",
        Some(AlertEventKind::Escalation) => "<span class=\"badge badge-alert\">Escaladat</span>",
        Some(AlertEventKind::Reminder) => "<span class=\"badge badge-alert\">Reminder</span>",
        Some(AlertEventKind::Recovery) => "<span class=\"badge badge-ok\">Revenit</span>",
        None => match sev {
            Some(AlertSeverity::Warning) => "<span class=\"badge badge-warning\">WARNING</span>",
            Some(AlertSeverity::Critical) => "<span class=\"badge badge-alert\">CRITICAL</span>",
            Some(AlertSeverity::Emergency) => "<span class=\"badge badge-emergency\">EMERGENCY</span>",
            None => "<span class=\"badge badge-ok\">OK</span>",
        },
    }
}

/// A trend cell: the cell of the trend when the disk has one, else `N/A`.
pub open spec fn trend_cell(t: Option<TrendInfo>, f: spec_fn(TrendInfo) -> Seq<char>) -> Seq<char> {
    match t {
        Some(t) => f(t),
        None => "N/A"@,
    }
}

/// The trend of a key, if there is one.
pub open spec fn trend_at(trends: Map<Seq<char>, TrendInfo>, key: Seq<char>) -> Option<TrendInfo> {
    if trends.contains_key(key) {
        Some(trends[key])
    } else {
        None
    }
}

/// The row of one disk in the report.
pub open spec fn disk_row_text(
    d: DiskInfo,
    th: AlertThresholds,
    events: Seq<AlertEvent>,
    trends: Map<Seq<char>, TrendInfo>,
) -> Seq<char> {
    let key = mount_key_text(d);
    let ev = event_for(events, key);
    let t = trend_at(trends, key);
    let sev = disk_severity(d, th);
    "<tr style=\"background:"@ + row_color_text(sev, ev) + "\"><td class=\"mount\">"@
        + escape_text(d.mount_point@) + "</td><td>"@ + escape_text(d.file_system@)
        + "</td><td class=\"num\">"@ + fixed2(gb_hundredths(d.total_space as nat))
        + " GB</td><td class=\"num\">"@ + fixed2(gb_hundredths(d.used_space as nat))
        + " GB</td><td class=\"num\">"@ + fixed2(gb_hundredths(d.available_space as nat))
        + " GB</td><td class=\"num\">"@ + percent_text(free_of(d)) + "%</td><td class=\"num\">"@
        + percent_text(used_of(d)) + "%</td><td class=\"num\">"@ + trend_cell(
        t,
        |x: TrendInfo| growth_text(x.growth_24h),
    ) + "</td><td class=\"num\">"@ + trend_cell(t, |x: TrendInfo| growth_text(x.growth_7d))
        + "</td><td class=\"num\">"@ + trend_cell(t, |x: TrendInfo| growth_text(x.growth_30d))
        + "</td><td>"@ + trend_cell(t, |x: TrendInfo| time_to_full_text(x.time_to_full_seconds))
        + "</td><td>"@ + severity_html_text(sev) + "</td><td>"@ + badge_text(ev, sev)
        + "</td></tr>"@
}

/// Rows of all disks, in order.
pub open spec fn disk_rows_text(
    disks: Seq<DiskInfo>,
    th: AlertThresholds,
    events: Seq<AlertEvent>,
    trends: Map<Seq<char>, TrendInfo>,
) -> Seq<char>
    decreases disks.len(),
{
    if disks.len() == 0 {
        Seq::empty()
    } else {
        disk_rows_text(disks.drop_last(), th, events, trends) + disk_row_text(
            disks.last(),
            th,
            events,
            trends,
        )
    }
}

fn push_gb_amount(s: &mut String, bytes: u64)
    ensures
        final(s)@ == old(s)@ + fixed2(gb_hundredths(bytes as nat)),
{
    push_fixed2(s, bytes as u128 * 100, BYTES_PER_GB as u128);
}

fn push_disk_row(
    s: &mut String,
    d: &DiskInfo,
    thresholds: AlertThresholds,
    events: &[AlertEvent],
    trends: &KeyedMap<TrendInfo>,
)
    requires
        trends.wf(),
    ensures
        final(s)@ == old(s)@ + disk_row_text(*d, thresholds, events@, trends@),
{
    let key = mount_key(d);
    let ev = find_event(events, &key);
    let t: Option<TrendInfo> = match trends.get(key.as_str()) {
        Some(t) => Some(*t),
        None => None,
    };
    assert(t == trend_at(trends@, key@));
    let sev = severity_for_percent(d.used_ratio(), thresholds);
    let (g24, g7, g30, ttf) = match t {
        Some(t) => (
            format_growth(t.growth_24h),
            format_growth(t.growth_7d),
            format_growth(t.growth_30d),
            format_time_to_full(t.time_to_full_seconds),
        ),
        None => (
            String::from_str("N/A"),
            String::from_str("N/A"),
            String::from_str("N/A"),
            String::from_str("N/A"),
        ),
    };
    assert(g24@ == trend_cell(t, |x: TrendInfo| growth_text(x.growth_24h)));
    assert(g7@ == trend_cell(t, |x: TrendInfo| growth_text(x.growth_7d)));
    assert(g30@ == trend_cell(t, |x: TrendInfo| growth_text(x.growth_30d)));
    assert(ttf@ == trend_cell(t, |x: TrendInfo| time_to_full_text(x.time_to_full_seconds)));
    let sev_html = severity_html(sev);
    let mut r = String::from_str("<tr style=\"background:");
    r.append(row_color(sev, ev));
    r.append("\"><td class=\"mount\">");
    push_escaped(&mut r, d.mount_point.as_str());
    r.append("</td><td>");
    push_escaped(&mut r, d.file_system.as_str());
    r.append("</td><td class=\"num\">");
    push_gb_amount(&mut r, d.total_space);
    r.append(" GB</td><td class=\"num\">");
    push_gb_amount(&mut r, d.used_space);
    r.append(" GB</td><td class=\"num\">");
    push_gb_amount(&mut r, d.available_space);
    r.append(" GB</td><td class=\"num\">");
    push_percent(&mut r, d.free_ratio());
    r.append("%</td><td class=\"num\">");
    push_percent(&mut r, d.used_ratio());
    r.append("%</td><td class=\"num\">");
    r.append(g24.as_str());
    r.append("</td><td class=\"num\">");
    r.append(g7.as_str());
    r.append("</td><td class=\"num\">");
    r.append(g30.as_str());
    r.append("</td><td>");
    r.append(ttf.as_str());
    r.append("</td><td>");
    r.append(sev_html.as_str());
    r.append("</td><td>");
    r.append(badge(ev, sev));
    r.append("</td></tr>");
    s.append(r.as_str());
}

fn disk_rows(
    disks: &[DiskInfo],
    thresholds: AlertThresholds,
    events: &[AlertEvent],
    trends: &KeyedMap<TrendInfo>,
) -> (r: String)
    requires
        trends.wf(),
    ensures
        r@ == disk_rows_text(disks@, thresholds, events@, trends@),
{
    let mut s = String::new();
    let n = disks.len();
    let mut i: usize = 0;
    assert(s@ =~= disk_rows_text(disks@.take(0), thresholds, events@, trends@));
    while i < n
        invariant
            n == disks@.len(),
            i <= n,
            trends.wf(),
            s@ == disk_rows_text(disks@.take(i as int), thresholds, events@, trends@),
        decreases n - i,
    {
        push_disk_row(&mut s, &disks[i], thresholds, events, trends);
        assert(disks@.take(i + 1).drop_last() =~= disks@.take(i as int));
        assert(disks@.take(i + 1).last() == disks@[i as int]);
        i = i + 1;
    }
    assert(disks@.take(n as int) =~= disks@);
    s
}

/// How the report was run.
pub open spec fn mode_text(kind: ReportKind) -> Seq<char> {
    match kind {
        ReportKind::Forced => "Raport zilnic / la cerere"@,
        _ => "Verificare periodica"@,
    }
}

/// The page up to the summary: style sheet with the banner colour, and the
/// header with the machine's name and hostname.
pub open spec fn page_top_text(
    cfg: Config,
    disks: Seq<DiskInfo>,
    info: SystemInfo,
    kind: ReportKind,
    th: AlertThresholds,
) -> Seq<char> {
    page_start_text() + status_color_text(kind, disks, th) + page_header_text() + escape_text(
        display_name_text(cfg, info),
    ) + " ("@ + escape_text(info.hostname@) + ")</p>\n      </div>\n      "@
}

/// The facts of the report: status, system, hostname, date, mode,
/// thresholds, counts, events and trends.
pub open spec fn facts_text(
    disks: Seq<DiskInfo>,
    info: SystemInfo,
    kind: ReportKind,
    th: AlertThresholds,
    recovery: i64,
    events: Seq<AlertEvent>,
    trends: KeyedMap<TrendInfo>,
    datetime: Seq<char>,
) -> Seq<char> {
    "\n      <div class=\"summary\">\n        <span class=\"status\">"@ + status_label_text(kind)
        + "</span>\n        <table class=\"meta\">\n          <tr><td>Sistem</td><td>"@
        + escape_text(os_info_text(info)) + "</td></tr>\n          <tr><td>Hostname</td><td>"@
        + escape_text(info.hostname@) + "</td></tr>\n          <tr><td>Data raport</td><td>"@
        + escape_text(datetime) + "</td></tr>\n          <tr><td>Mod rulare</td><td>"@
        + mode_text(kind)
        + "</td></tr>\n          <tr><td>Praguri severitate</td><td>Warning "@
        + threshold_text(th.warning) + "% / Critical "@ + threshold_text(th.critical)
        + "% / Emergency "@ + threshold_text(th.emergency)
        + "% ocupat</td></tr>\n          <tr><td>Prag revenire</td><td>"@ + threshold_text(recovery)
        + "% ocupat</td></tr>\n          <tr><td>Mount point-uri monitorizate</td><td>"@
        + decimal(disks.len()) + "</td></tr>\n          <tr><td>Mount point-uri peste prag</td><td>"@
        + decimal(alerting(disks, th).len()) + "</td></tr>\n          <tr><td>Evenimente</td><td>"@
        + event_summary_text(events) + "</td></tr>\n          <tr><td>Trend</td><td>"@
        + trend_summary_text(trends, disks)
}

/// The HTML report: header, the executive summary for full reports, the
/// facts of the run, and one row per disk.
pub open spec fn email_body_text(
    cfg: Config,
    disks: Seq<DiskInfo>,
    info: SystemInfo,
    kind: ReportKind,
    th: AlertThresholds,
    recovery: i64,
    events: Seq<AlertEvent>,
    trends: KeyedMap<TrendInfo>,
    datetime: Seq<char>,
) -> Seq<char> {
    page_top_text(cfg, disks, info, kind, th) + if kind == ReportKind::Forced {
        executive_summary_text(disks, th, trends@)
    } else {
        Seq::empty()
    } + facts_text(disks, info, kind, th, recovery, events, trends, datetime)
        + disk_table_start_text() + disk_rows_text(disks, th, events, trends@) + page_end_text()
}

fn push_page_top(
    s: &mut String,
    cfg: &Config,
    disks: &[DiskInfo],
    info: &SystemInfo,
    kind: ReportKind,
    thresholds: AlertThresholds,
)
    ensures
        final(s)@ == old(s)@ + page_top_text(*cfg, disks@, *info, kind, thresholds),
{
    push_page_start(s);
    s.append(status_color(kind, disks, thresholds));
    push_page_header(s);
    push_escaped(s, display_name(cfg, info));
    s.append(" (");
    push_escaped(s, info.hostname.as_str());
    s.append(")</p>\n      </div>\n      ");
    assert(s@ =~= old(s)@ + page_top_text(*cfg, disks@, *info, kind, thresholds));
}

fn mode_label(kind: ReportKind) -> (r: &'static str)
    ensures
        r@ == mode_text(kind),
{
    match kind {
        ReportKind::Forced => "Raport zilnic / la cerere",
        _ => "Verificare periodica",
    }
}

fn push_facts(
    s: &mut String,
    disks: &[DiskInfo],
    info: &SystemInfo,
    kind: ReportKind,
    thresholds: AlertThresholds,
    recovery: i64,
    events: &[AlertEvent],
    trends: &KeyedMap<TrendInfo>,
    datetime: &str,
)
    ensures
        final(s)@ == old(s)@ + facts_text(
            disks@,
            *info,
            kind,
            thresholds,
            recovery,
            events@,
            *trends,
            datetime@,
        ),
{
    let problems = alert_disks(disks, thresholds);
    proof {
        assert(problems@.len() == problems@.map_values(|d: &DiskInfo| *d).len());
    }
    let os = os_info(info);
    let events_text = event_summary(events);
    let trends_text = trend_summary(trends, disks);
    let mut r = String::from_str("\n      <div class=\"summary\">\n        <span class=\"status\">");
    r.append(status_label(kind));
    r.append("</span>\n        <table class=\"meta\">\n          <tr><td>Sistem</td><td>");
    push_escaped(&mut r, os.as_str());
    r.append("</td></tr>\n          <tr><td>Hostname</td><td>");
    push_escaped(&mut r, info.hostname.as_str());
    r.append("</td></tr>\n          <tr><td>Data raport</td><td>");
    push_escaped(&mut r, datetime);
    r.append("</td></tr>\n          <tr><td>Mod rulare</td><td>");
    r.append(mode_label(kind));
    r.append("</td></tr>\n          <tr><td>Praguri severitate</td><td>Warning ");
    push_threshold(&mut r, thresholds.warning);
    r.append("% / Critical ");
    push_threshold(&mut r, thresholds.critical);
    r.append("% / Emergency ");
    push_threshold(&mut r, thresholds.emergency);
    r.append("% ocupat</td></tr>\n          <tr><td>Prag revenire</td><td>");
    push_threshold(&mut r, recovery);
    r.append("% ocupat</td></tr>\n          <tr><td>Mount point-uri monitorizate</td><td>");
    push_decimal(&mut r, disks.len() as u128);
    r.append("</td></tr>\n          <tr><td>Mount point-uri peste prag</td><td>");
    push_decimal(&mut r, problems.len() as u128);
    r.append("</td></tr>\n          <tr><td>Evenimente</td><td>");
    r.append(events_text.as_str());
    r.append("</td></tr>\n          <tr><td>Trend</td><td>");
    r.append(trends_text.as_str());
    s.append(r.as_str());
}

/// The HTML report of a run. `datetime` is the local time of the report,
/// already written out.
pub fn build_email_body(
    cfg: &Config,
    disks: &[DiskInfo],
    system_info: &SystemInfo,
    report_kind: ReportKind,
    thresholds: AlertThresholds,
    recovery_threshold: i64,
    events: &[AlertEvent],
    trends: &KeyedMap<TrendInfo>,
    datetime: &str,
) -> (r: String)
    requires
        trends.wf(),
    ensures
        r@ == email_body_text(
            *cfg,
            disks@,
            *system_info,
            report_kind,
            thresholds,
            recovery_threshold,
            events@,
            *trends,
            datetime@,
        ),
{
    let mut s = String::new();
    push_page_top(&mut s, cfg, disks, system_info, report_kind, thresholds);
    match report_kind {
        ReportKind::Forced => {
            let summary = build_executive_summary(disks, thresholds, trends);
            s.append(summary.as_str());
        },
        _ => {},
    }
    push_facts(
        &mut s,
        disks,
        system_info,
        report_kind,
        thresholds,
        recovery_threshold,
        events,
        trends,
        datetime,
    );
    push_disk_table_start(&mut s);
    let rows = disk_rows(disks, thresholds, events, trends);
    s.append(rows.as_str());
    push_page_end(&mut s);
    assert(s@ =~= email_body_text(
        *cfg,
        disks@,
        *system_info,
        report_kind,
        thresholds,
        recovery_threshold,
        events@,
        *trends,
        datetime@,
    ));
    s
}

/// Line naming a disk and its usage, with the severity it reaches or `OK`.
pub open spec fn alert_line_text(d: DiskInfo, th: AlertThresholds) -> Seq<char> {
    d.display_name@ + ": "@ + percent_text(used_of(d)) + "% ocupat ("@ + match disk_severity(d, th) {
        Some(sev) => severity_label_text(sev),
        None => "OK"@,
    } + ")"@
}

/// Line naming a disk and its usage, with the severity it reaches or `OK`.
pub fn alert_line(disk: &DiskInfo, thresholds: AlertThresholds) -> (r: String)
    ensures
        r@ == alert_line_text(*disk, thresholds),
{
    let mut s = disk.display_name.clone();
    s.append(": ");
    push_percent(&mut s, disk.used_ratio());
    s.append("% ocupat (");
    match severity_for_percent(disk.used_ratio(), thresholds) {
        Some(sev) => s.append(severity_label(sev)),
        None => s.append("OK"),
    }
    s.append(")");
    s
}

} // verus!
