use vstd::prelude::*;

use crate::config::{
    Config, alert_cooldown, alert_thresholds, cooldown_hours_of, recovery_threshold,
    recovery_threshold_of, send_recovery_email, sends_recovery_email, thresholds_of,
    NANOS_PER_HOUR,
};
use crate::disk::{DiskInfo, mount_key, mount_key_text, used_of, disk_severity};
use crate::keyed_map::KeyedMap;
use crate::severity::{
    AlertSeverity, AlertThresholds, UsageRatio, ratio_same, ratio_within, severity_for_percent,
    severity_rank,
};

verus! {

/// Why a report is sent.
#[derive(Clone, Copy, Debug, PartialEq, Eq, Structural)]
pub enum ReportKind {
    Forced,
    Alert,
    Reminder,
    Recovery,
}

/// What happened to one mount point in a periodic check.
#[derive(Clone, Copy, Debug, PartialEq, Eq, Structural)]
pub enum AlertEventKind {
    Alert,
    Escalation,
    Reminder,
    Recovery,
}

/// Remembered alert of one mount point. Instants are nanoseconds since the
/// Unix epoch.
#[derive(Clone, Copy, Debug, PartialEq, Eq, Structural)]
pub struct MountAlertState {
    pub active: bool,
    pub first_alert_at: Option<i64>,
    pub last_notification_at: Option<i64>,
    pub last_seen: UsageRatio,
    pub last_severity: Option<AlertSeverity>,
}

/// One recorded measurement of a mount point. The instant is in
/// nanoseconds since the Unix epoch.
#[derive(Clone, Copy, Debug, PartialEq, Eq, Structural)]
pub struct DiskHistorySample {
    pub timestamp: i64,
    pub total_space: u64,
    pub used_space: u64,
    pub available_space: u64,
}

/// What the monitor keeps between runs, by mount key.
#[derive(Debug)]
pub struct AlertStateFile {
    pub alerts: KeyedMap<MountAlertState>,
    pub history: KeyedMap<Vec<DiskHistorySample>>,
}

impl AlertStateFile {
    /// Both maps keep their keys in increasing order.
    pub open spec fn wf(&self) -> bool {
        self.alerts.wf() && self.history.wf()
    }
}

/// A change that a notification reports.
#[derive(Clone, Debug)]
pub struct AlertEvent {
    pub mount_key: String,
    pub mount_point: String,
    pub display_name: String,
    pub used: UsageRatio,
    pub severity: Option<AlertSeverity>,
    pub kind: AlertEventKind,
}

/// Outcome of a periodic check: what to send, the events, and the state to keep.
#[derive(Debug)]
pub struct NotificationDecision {
    pub report_kind: Option<ReportKind>,
    pub events: Vec<AlertEvent>,
    pub state: AlertStateFile,
    pub state_changed: bool,
}

/// A state with no alerts and no history.
pub fn empty_alert_state() -> (r: AlertStateFile)
    ensures
        r.wf(),
        r.alerts@ == Map::<Seq<char>, MountAlertState>::empty(),
        r.history@ == Map::<Seq<char>, Vec<DiskHistorySample>>::empty(),
{
    AlertStateFile { alerts: KeyedMap::new(), history: KeyedMap::new() }
}

/// The settings that a periodic check applies.
#[derive(Clone, Copy, Debug, PartialEq, Eq, Structural)]
pub struct CheckRules {
    pub thresholds: AlertThresholds,
    /// Reminder cooldown, in nanoseconds.
    pub cooldown: i128,
    /// Recovery threshold, in hundredths of a percent.
    pub recovery: i64,
    pub send_recovery: bool,
    /// The current instant, in nanoseconds since the Unix epoch.
    pub now: i64,
}

/// Rules that a configuration sets for a check at `now`.
pub open spec fn rules_of(cfg: Config, th: AlertThresholds, now: i64) -> CheckRules {
    CheckRules {
        thresholds: th,
        cooldown: (cooldown_hours_of(cfg) as int * NANOS_PER_HOUR as int) as i128,
        recovery: recovery_threshold_of(cfg, th.warning),
        send_recovery: sends_recovery_email(cfg),
        now,
    }
}

/// Entry of a mount point that has just entered the alert state.
pub open spec fn fresh_alert(now: i64, r: UsageRatio, sev: AlertSeverity) -> MountAlertState {
    MountAlertState {
        active: true,
        first_alert_at: Some(now),
        last_notification_at: Some(now),
        last_seen: r,
        last_severity: Some(sev),
    }
}

/// Records a notification in the entry of `key`, where there is one.
pub open spec fn note_notification(
    next: Map<Seq<char>, MountAlertState>,
    key: Seq<char>,
    now: i64,
    r: UsageRatio,
    sev: AlertSeverity,
) -> Map<Seq<char>, MountAlertState> {
    if next.contains_key(key) {
        next.insert(
            key,
            MountAlertState {
                last_notification_at: Some(now),
                last_seen: r,
                last_severity: Some(sev),
                ..next[key]
            },
        )
    } else {
        next
    }
}

/// Whether an entry was last notified at a lower severity, or at none.
pub open spec fn escalated(prev: MountAlertState, sev: AlertSeverity) -> bool {
    match prev.last_severity {
        Some(p) => severity_rank(sev) > severity_rank(p),
        None => true,
    }
}

/// Whether the reminder cooldown of an entry has run out at `now`.
pub open spec fn cooldown_expired(prev: MountAlertState, now: i64, cooldown: i128) -> bool {
    match prev.last_notification_at {
        Some(last) => now - last >= cooldown,
        None => true,
    }
}

/// Result of checking one disk: the next alert map, the event raised, and
/// whether the state changed. `current` is the state before the check,
/// `next` the state built so far.
pub open spec fn disk_step(
    current: Map<Seq<char>, MountAlertState>,
    next: Map<Seq<char>, MountAlertState>,
    d: DiskInfo,
    rules: CheckRules,
) -> (Map<Seq<char>, MountAlertState>, Option<AlertEventKind>, bool) {
    let key = mount_key_text(d);
    let r = used_of(d);
    let was_active = current.contains_key(key) && current[key].active;
    match disk_severity(d, rules.thresholds) {
        Some(sev) => {
            if !was_active {
                (next.insert(key, fresh_alert(rules.now, r, sev)), Some(AlertEventKind::Alert), true)
            } else if escalated(current[key], sev) {
                (
                    note_notification(next, key, rules.now, r, sev),
                    Some(AlertEventKind::Escalation),
                    true,
                )
            } else if cooldown_expired(current[key], rules.now, rules.cooldown) {
                (
                    note_notification(next, key, rules.now, r, sev),
                    Some(AlertEventKind::Reminder),
                    true,
                )
            } else if next.contains_key(key) && (!ratio_same(next[key].last_seen, r)
                || next[key].last_severity != Some(sev)) {
                (
                    next.insert(
                        key,
                        MountAlertState { last_seen: r, last_severity: Some(sev), ..next[key] },
                    ),
                    None,
                    true,
                )
            } else {
                (next, None, false)
            }
        },
        None => {
            if was_active && ratio_within(r, rules.recovery) {
                (
                    next.remove(key),
                    if rules.send_recovery {
                        Some(AlertEventKind::Recovery)
                    } else {
                        None
                    },
                    true,
                )
            } else if next.contains_key(key) && !ratio_same(next[key].last_seen, r) {
                (next.insert(key, MountAlertState { last_seen: r, ..next[key] }), None, true)
            } else {
                (next, None, false)
            }
        },
    }
}

/// The check applied to the first `n` disks in order: the alert map, the
/// events raised (each with its disk), and whether anything changed.
pub open spec fn check_prefix(
    current: Map<Seq<char>, MountAlertState>,
    disks: Seq<DiskInfo>,
    n: nat,
    rules: CheckRules,
) -> (Map<Seq<char>, MountAlertState>, Seq<(DiskInfo, AlertEventKind)>, bool)
    decreases n,
{
    if n == 0 {
        (current, Seq::empty(), false)
    } else {
        let (m, evs, ch) = check_prefix(current, disks, (n - 1) as nat, rules);
        let (m2, ev, ch2) = disk_step(current, m, disks[n - 1], rules);
        (
            m2,
            match ev {
                Some(k) => evs.push((disks[n - 1], k)),
                None => evs,
            },
            ch || ch2,
        )
    }
}

/// Keys of the given disks.
pub open spec fn seen_keys(disks: Seq<DiskInfo>) -> Set<Seq<char>> {
    Set::new(|k: Seq<char>| exists|i: int| 0 <= i < disks.len() && mount_key_text(disks[i]) == k)
}

/// A ratio that stands for 0%.
pub open spec fn zero_ratio() -> UsageRatio {
    UsageRatio { used: 0, total: 0 }
}

/// Active entries of mount points that were not measured are marked as 0% used.
pub open spec fn mark_unseen(
    m: Map<Seq<char>, MountAlertState>,
    seen: Set<Seq<char>>,
) -> Map<Seq<char>, MountAlertState> {
    Map::new(
        |k: Seq<char>| m.contains_key(k),
        |k: Seq<char>|
            if !seen.contains(k) && m[k].active {
                MountAlertState { last_seen: zero_ratio(), ..m[k] }
            } else {
                m[k]
            },
    )
}

/// Report that a list of event kinds calls for: an alert if any is a new
/// alert or an escalation, else a reminder if any is a reminder, else a
/// recovery if any is a recovery, else none.
pub open spec fn report_for(kinds: Seq<AlertEventKind>) -> Option<ReportKind> {
    if exists|i: int|
        0 <= i < kinds.len() && (kinds[i] == AlertEventKind::Alert || kinds[i]
            == AlertEventKind::Escalation) {
        Some(ReportKind::Alert)
    } else if exists|i: int| 0 <= i < kinds.len() && kinds[i] == AlertEventKind::Reminder {
        Some(ReportKind::Reminder)
    } else if exists|i: int| 0 <= i < kinds.len() && kinds[i] == AlertEventKind::Recovery {
        Some(ReportKind::Recovery)
    } else {
        None
    }
}

/// Kinds of a list of events.
pub open spec fn kinds_of(events: Seq<AlertEvent>) -> Seq<AlertEventKind> {
    events.map_values(|e: AlertEvent| e.kind)
}

/// Report kind that a list of events calls for.
pub fn choose_report_kind(events: &[AlertEvent]) -> (r: Option<ReportKind>)
    ensures
        r == report_for(kinds_of(events@)),
{
    let mut any_alert = false;
    let mut any_reminder = false;
    let mut any_recovery = false;
    let n = events.len();
    let mut i: usize = 0;
    while i < n
        invariant
            n == events@.len(),
            i <= n,
            any_alert <==> exists|j: int|
                0 <= j < i && (kinds_of(events@)[j] == AlertEventKind::Alert || kinds_of(
                    events@,
                )[j] == AlertEventKind::Escalation),
            any_reminder <==> exists|j: int|
                0 <= j < i && kinds_of(events@)[j] == AlertEventKind::Reminder,
            any_recovery <==> exists|j: int|
                0 <= j < i && kinds_of(events@)[j] == AlertEventKind::Recovery,
        decreases n - i,
    {
        let k = events[i].kind;
        assert(kinds_of(events@)[i as int] == k);
        match k {
            AlertEventKind::Alert | AlertEventKind::Escalation => {
                any_alert = true;
            },
            AlertEventKind::Reminder => {
                any_reminder = true;
            },
            AlertEventKind::Recovery => {
                any_recovery = true;
            },
        }
        i = i + 1;
    }
    if any_alert {
        Some(ReportKind::Alert)
    } else if any_reminder {
        Some(ReportKind::Reminder)
    } else if any_recovery {
        Some(ReportKind::Recovery)
    } else {
        None
    }
}

/// Text naming an event kind.
pub open spec fn event_label_text(kind: AlertEventKind) -> Seq<char> {
    match kind {
        AlertEventKind::Alert => "Alerta noua"@,
        AlertEventKind::Escalation => "Escaladare"@,
        AlertEventKind::Reminder => "Reminder"@,
        AlertEventKind::Recovery => "Revenire"@,
    }
}

/// Text naming an event kind.
pub fn event_label(kind: AlertEventKind) -> (r: &'static str)
    ensures
        r@ == event_label_text(kind),
{
    match kind {
        AlertEventKind::Alert => "Alerta noua",
        AlertEventKind::Escalation => "Escaladare",
        AlertEventKind::Reminder => "Reminder",
        AlertEventKind::Recovery => "Revenire",
    }
}

/// The event `e` reports `kind` for disk `d`: a recovery carries no
/// severity, the others carry the disk's severity.
pub open spec fn event_matches(
    e: AlertEvent,
    d: DiskInfo,
    kind: AlertEventKind,
    th: AlertThresholds,
) -> bool {
    &&& e.mount_key@ == mount_key_text(d)
    &&& e.mount_point@ == d.mount_point@
    &&& e.display_name@ == d.display_name@
    &&& e.used == used_of(d)
    &&& e.kind == kind
    &&& e.severity == if kind == AlertEventKind::Recovery {
        None
    } else {
        disk_severity(d, th)
    }
}

fn make_event(
    key: &String,
    disk: &DiskInfo,
    severity: Option<AlertSeverity>,
    kind: AlertEventKind,
) -> (e: AlertEvent)
    ensures
        e.mount_key@ == key@,
        e.mount_point@ == disk.mount_point@,
        e.display_name@ == disk.display_name@,
        e.used == used_of(*disk),
        e.severity == severity,
        e.kind == kind,
{
    AlertEvent {
        mount_key: key.clone(),
        mount_point: disk.mount_point.clone(),
        display_name: disk.display_name.clone(),
        used: disk.used_ratio(),
        severity,
        kind,
    }
}

/// Whether disk `d`'s step leaves the event list as given, or appends
/// one matching event.
pub open spec fn events_after_step(
    before: Seq<AlertEvent>,
    after: Seq<AlertEvent>,
    d: DiskInfo,
    ev: Option<AlertEventKind>,
    th: AlertThresholds,
) -> bool {
    match ev {
        None => after == before,
        Some(kind) => {
            &&& after.len() == before.len() + 1
            &&& after.take(before.len() as int) == before
            &&& event_matches(after[before.len() as int], d, kind, th)
        },
    }
}

fn check_disk(
    current: &KeyedMap<MountAlertState>,
    next: &mut KeyedMap<MountAlertState>,
    disk: &DiskInfo,
    rules: &CheckRules,
    events: &mut Vec<AlertEvent>,
) -> (changed: bool)
    requires
        current.wf(),
        old(next).wf(),
    ensures
        final(next).wf(),
        final(next)@ == disk_step(current@, old(next)@, *disk, *rules).0,
        changed == disk_step(current@, old(next)@, *disk, *rules).2,
        events_after_step(
            old(events)@,
            final(events)@,
            *disk,
            disk_step(current@, old(next)@, *disk, *rules).1,
            rules.thresholds,
        ),
{
    let key = mount_key(disk);
    let r = disk.used_ratio();
    let prev: Option<MountAlertState> = match current.get(key.as_str()) {
        Some(p) => Some(*p),
        None => None,
    };
    let was_active = match prev {
        Some(p) => p.active,
        None => false,
    };
    let severity = severity_for_percent(r, rules.thresholds);
    let ghost before = events@;
    match severity {
        Some(sev) => {
            if !was_active {
                let e = make_event(&key, disk, Some(sev), AlertEventKind::Alert);
                events.push(e);
                next.insert(
                    key,
                    MountAlertState {
                        active: true,
                        first_alert_at: Some(rules.now),
                        last_notification_at: Some(rules.now),
                        last_seen: r,
                        last_severity: Some(sev),
                    },
                );
                assert(events@.take(before.len() as int) =~= before);
                true
            } else {
                let p = match prev {
                    Some(p) => p,
                    None => {
                        assert(false);
                        return false;
                    },
                };
                let esc = match p.last_severity {
                    Some(ps) => sev.is_above(&ps),
                    None => true,
                };
                let expired = match p.last_notification_at {
                    Some(last) => (rules.now as i128 - last as i128) >= rules.cooldown,
                    None => true,
                };
                if esc || expired {
                    let kind = if esc {
                        AlertEventKind::Escalation
                    } else {
                        AlertEventKind::Reminder
                    };
                    let e = make_event(&key, disk, Some(sev), kind);
                    events.push(e);
                    assert(events@.take(before.len() as int) =~= before);
                    let cur: Option<MountAlertState> = match next.get(key.as_str()) {
                        Some(st) => Some(*st),
                        None => None,
                    };
                    match cur {
                        Some(st) => {
                            next.insert(
                                key,
                                MountAlertState {
                                    last_notification_at: Some(rules.now),
                                    last_seen: r,
                                    last_severity: Some(sev),
                                    ..st
                                },
                            );
                        },
                        None => {},
                    }
                    true
                } else {
                    let cur: Option<MountAlertState> = match next.get(key.as_str()) {
                        Some(st) => Some(*st),
                        None => None,
                    };
                    match cur {
                        Some(st) => {
                            let severity_moved = match st.last_severity {
                                Some(s) => s != sev,
                                None => true,
                            };
                            if !st.last_seen.same_as(&r) || severity_moved {
                                next.insert(
                                    key,
                                    MountAlertState { last_seen: r, last_severity: Some(sev), ..st },
                                );
                                true
                            } else {
                                false
                            }
                        },
                        None => false,
                    }
                }
            }
        },
        None => {
            if was_active && r.within(rules.recovery) {
                if rules.send_recovery {
                    let e = make_event(&key, disk, None, AlertEventKind::Recovery);
                    events.push(e);
                    assert(events@.take(before.len() as int) =~= before);
                }
                let _ = next.remove(key.as_str());
                true
            } else {
                let cur: Option<MountAlertState> = match next.get(key.as_str()) {
                    Some(st) => Some(*st),
                    None => None,
                };
                match cur {
                    Some(st) => {
                        if !st.last_seen.same_as(&r) {
                            next.insert(key, MountAlertState { last_seen: r, ..st });
                            true
                        } else {
                            false
                        }
                    },
                    None => false,
                }
            }
        },
    }
}

/// Whether some disk has the key `key`.
pub(crate) fn key_is_seen(disks: &[DiskInfo], key: &String) -> (r: bool)
    ensures
        r == seen_keys(disks@).contains(key@),
{
    let n = disks.len();
    let mut i: usize = 0;
    while i < n
        invariant
            n == disks@.len(),
            i <= n,
            forall|j: int| 0 <= j < i ==> mount_key_text(#[trigger] disks@[j]) != key@,
        decreases n - i,
    {
        let k = mount_key(&disks[i]);
        if k == *key {
            return true;
        }
        i = i + 1;
    }
    false
}

/// Decides, for each monitored disk in order, whether its alert starts,
/// escalates, is repeated, recovers or stays quiet, and returns the events
/// to notify with the alert state to keep.
///
/// A disk that reaches a severity while not active raises an alert; while
/// active it raises an escalation if the severity rose (or none was
/// recorded), else a reminder once the cooldown has run out since the last
/// notification, else nothing. An active disk below every threshold
/// recovers when at or below the recovery threshold, and its entry is
/// dropped; above it, the alert stays. Active entries of mount points that
/// were not measured are marked 0% used. History is kept as it was.
pub fn evaluate_alert_state(
    cfg: &Config,
    disks: &[DiskInfo],
    current_state: &AlertStateFile,
    thresholds: AlertThresholds,
    now: i64,
) -> (r: NotificationDecision)
    requires
        current_state.wf(),
    ensures
        r.state.wf(),
        r.state.alerts@ == mark_unseen(
            check_prefix(
                current_state.alerts@,
                disks@,
                disks@.len(),
                rules_of(*cfg, thresholds, now),
            ).0,
            seen_keys(disks@),
        ),
        r.events@.len() == check_prefix(
            current_state.alerts@,
            disks@,
            disks@.len(),
            rules_of(*cfg, thresholds, now),
        ).1.len(),
        forall|j: int|
            #![trigger r.events@[j]]
            0 <= j < r.events@.len() ==> {
                let ev = check_prefix(
                    current_state.alerts@,
                    disks@,
                    disks@.len(),
                    rules_of(*cfg, thresholds, now),
                ).1[j];
                event_matches(r.events@[j], ev.0, ev.1, thresholds)
            },
        r.report_kind == report_for(kinds_of(r.events@)),
        r.state_changed == check_prefix(
            current_state.alerts@,
            disks@,
            disks@.len(),
            rules_of(*cfg, thresholds, now),
        ).2,
        same_history(r.state.history, current_state.history),
{
    let rules = CheckRules {
        thresholds,
        cooldown: alert_cooldown(cfg),
        recovery: recovery_threshold(cfg, thresholds.warning),
        send_recovery: send_recovery_email(cfg),
        now,
    };
    assert(rules == rules_of(*cfg, thresholds, now));
    let mut next = current_state.alerts.duplicate();
    proof {
        assert(next.values() =~= current_state.alerts.values());
        KeyedMap::lemma_same_entries(&next, &current_state.alerts);
    }
    let mut events: Vec<AlertEvent> = Vec::new();
    let mut changed = false;
    let n = disks.len();
    let mut i: usize = 0;
    while i < n
        invariant
            n == disks@.len(),
            i <= n,
            current_state.wf(),
            next.wf(),
            next@ == check_prefix(current_state.alerts@, disks@, i as nat, rules).0,
            changed == check_prefix(current_state.alerts@, disks@, i as nat, rules).2,
            events@.len() == check_prefix(current_state.alerts@, disks@, i as nat, rules).1.len(),
            forall|j: int|
                #![trigger events@[j]]
                0 <= j < events@.len() ==> {
                    let ev = check_prefix(current_state.alerts@, disks@, i as nat, rules).1[j];
                    event_matches(events@[j], ev.0, ev.1, rules.thresholds)
                },
        decreases n - i,
    {
        let ghost evs_before = events@;
        let ghost prefix = check_prefix(current_state.alerts@, disks@, i as nat, rules);
        let c = check_disk(&current_state.alerts, &mut next, &disks[i], &rules, &mut events);
        changed = changed || c;
        proof {
            let step = disk_step(current_state.alerts@, prefix.0, disks@[i as int], rules);
            let post = check_prefix(current_state.alerts@, disks@, (i + 1) as nat, rules);
            assert(post.0 == step.0);
            match step.1 {
                Some(k) => {
                    assert(post.1 == prefix.1.push((disks@[i as int], k)));
                    assert forall|j: int| 0 <= j < events@.len() implies {
                        let ev = post.1[j];
                        event_matches(#[trigger] events@[j], ev.0, ev.1, rules.thresholds)
                    } by {
                        if j < evs_before.len() {
                            assert(events@[j] == events@.take(evs_before.len() as int)[j]);
                        }
                    }
                },
                None => {},
            }
        }
        i = i + 1;
    }
    let ghost checked = next@;
    let ghost checked_keys = next.keys();
    let ghost checked_values = next.values();
    proof {
        next.lemma_sizes();
        next.lemma_view_keys();
        assert forall|j: int| 0 <= j < checked_keys.len() implies checked.contains_key(
            #[trigger] checked_keys[j],
        ) && checked[checked_keys[j]] == checked_values[j] by {
            next.lemma_view_at(j);
        }
    }
    let m = next.len();
    let mut k: usize = 0;
    while k < m
        invariant
            m == checked_keys.len(),
            k <= m,
            next.wf(),
            next.keys() == checked_keys,
            next.values().len() == m,
            checked_values.len() == m,
            forall|j: int|
                0 <= j < k ==> #[trigger] next.values()[j] == if !seen_keys(disks@).contains(
                    checked_keys[j],
                ) && checked_values[j].active {
                    MountAlertState { last_seen: zero_ratio(), ..checked_values[j] }
                } else {
                    checked_values[j]
                },
            forall|j: int| k <= j < m ==> #[trigger] next.values()[j] == checked_values[j],
        decreases m - k,
    {
        let st = *next.value_at(k);
        let seen = key_is_seen(disks, next.key_at(k));
        if st.active && !seen {
            next.set_value_at(k, MountAlertState { last_seen: UsageRatio { used: 0, total: 0 }, ..st });
        }
        k = k + 1;
    }
    proof {
        lemma_marked_view(&next, checked, checked_keys, checked_values, seen_keys(disks@));
    }
    let report_kind = choose_report_kind(events.as_slice());
    let history = current_state.history.duplicate();
    proof {
        lemma_history_clone(&history, &current_state.history);
    }
    NotificationDecision {
        report_kind,
        events,
        state: AlertStateFile { alerts: next, history },
        state_changed: changed,
    }
}

/// Two histories hold the same keys with the same samples.
pub open spec fn same_history(
    a: KeyedMap<Vec<DiskHistorySample>>,
    b: KeyedMap<Vec<DiskHistorySample>>,
) -> bool {
    &&& a@.dom() == b@.dom()
    &&& forall|k: Seq<char>| #[trigger] a@.contains_key(k) ==> a@[k]@ == b@[k]@
}

proof fn lemma_history_clone(
    copy: &KeyedMap<Vec<DiskHistorySample>>,
    orig: &KeyedMap<Vec<DiskHistorySample>>,
)
    requires
        orig.wf(),
        copy.wf(),
        copy.keys() == orig.keys(),
        copy.values().len() == orig.values().len(),
        forall|i: int|
            0 <= i < orig.values().len() ==> cloned::<Vec<DiskHistorySample>>(
                #[trigger] orig.values()[i],
                copy.values()[i],
            ),
    ensures
        same_history(*copy, *orig),
{
    copy.lemma_view_keys();
    orig.lemma_view_keys();
    copy.lemma_sizes();
    orig.lemma_sizes();
    assert(copy@.dom() =~= orig@.dom());
    assert forall|k: Seq<char>| #[trigger] copy@.contains_key(k) implies copy@[k]@ == orig@[k]@ by {
        let i = choose|i: int| 0 <= i < copy.keys().len() && copy.keys()[i] == k;
        copy.lemma_view_at(i);
        orig.lemma_view_at(i);
        let a = orig.values()[i];
        let b = copy.values()[i];
        assert(cloned::<Vec<DiskHistorySample>>(a, b));
        assert(a@ =~= b@);
    }
}

proof fn lemma_marked_view(
    next: &KeyedMap<MountAlertState>,
    checked: Map<Seq<char>, MountAlertState>,
    checked_keys: Seq<Seq<char>>,
    checked_values: Seq<MountAlertState>,
    seen: Set<Seq<char>>,
)
    requires
        next.wf(),
        next.keys() == checked_keys,
        checked_values.len() == checked_keys.len(),
        next.values().len() == checked_keys.len(),
        forall|j: int|
            0 <= j < checked_keys.len() ==> #[trigger] next.values()[j] == if !seen.contains(
                checked_keys[j],
            ) && checked_values[j].active {
                MountAlertState { last_seen: zero_ratio(), ..checked_values[j] }
            } else {
                checked_values[j]
            },
        forall|j: int|
            0 <= j < checked_keys.len() ==> checked.contains_key(#[trigger] checked_keys[j])
                && checked[checked_keys[j]] == checked_values[j],
        forall|k: Seq<char>| #[trigger] checked.contains_key(k) ==> checked_keys.contains(k),
    ensures
        next@ == mark_unseen(checked, seen),
{
    next.lemma_view_keys();
    assert forall|k: Seq<char>| #[trigger] next@.contains_key(k) == mark_unseen(
        checked,
        seen,
    ).contains_key(k) by {
        if checked_keys.contains(k) {
            let j = choose|j: int| 0 <= j < checked_keys.len() && checked_keys[j] == k;
            assert(checked.contains_key(checked_keys[j]));
        }
    }
    assert forall|k: Seq<char>| #[trigger] next@.contains_key(k) implies next@[k] == mark_unseen(
        checked,
        seen,
    )[k] by {
        let j = choose|j: int| 0 <= j < next.keys().len() && next.keys()[j] == k;
        next.lemma_view_at(j);
        assert(checked.contains_key(checked_keys[j]));
    }
    assert(next@ =~= mark_unseen(checked, seen));
}

/// A mount point that reaches a severity while not in alert raises a new
/// alert, and its entry starts an active alert at `now`.
pub proof fn law_alert_on_entry(
    current: Map<Seq<char>, MountAlertState>,
    next: Map<Seq<char>, MountAlertState>,
    d: DiskInfo,
    rules: CheckRules,
    sev: AlertSeverity,
)
    requires
        disk_severity(d, rules.thresholds) == Some(sev),
        !(current.contains_key(mount_key_text(d)) && current[mount_key_text(d)].active),
    ensures
        disk_step(current, next, d, rules).1 == Some(AlertEventKind::Alert),
        disk_step(current, next, d, rules).0[mount_key_text(d)] == fresh_alert(
            rules.now,
            used_of(d),
            sev,
        ),
        disk_step(current, next, d, rules).0[mount_key_text(d)].active,
{
}

/// An active alert whose severity rose is notified at once, whatever the
/// cooldown.
pub proof fn law_escalation_is_immediate(
    current: Map<Seq<char>, MountAlertState>,
    next: Map<Seq<char>, MountAlertState>,
    d: DiskInfo,
    rules: CheckRules,
    sev: AlertSeverity,
    last: AlertSeverity,
)
    requires
        disk_severity(d, rules.thresholds) == Some(sev),
        current.contains_key(mount_key_text(d)),
        current[mount_key_text(d)].active,
        current[mount_key_text(d)].last_severity == Some(last),
        severity_rank(sev) > severity_rank(last),
    ensures
        disk_step(current, next, d, rules).1 == Some(AlertEventKind::Escalation),
{
}

/// While an alert stays active at the same or a lower severity, nothing is
/// sent until the cooldown has run out since the last notification.
pub proof fn law_quiet_within_cooldown(
    current: Map<Seq<char>, MountAlertState>,
    next: Map<Seq<char>, MountAlertState>,
    d: DiskInfo,
    rules: CheckRules,
    sev: AlertSeverity,
    last: AlertSeverity,
    notified_at: i64,
)
    requires
        disk_severity(d, rules.thresholds) == Some(sev),
        current.contains_key(mount_key_text(d)),
        current[mount_key_text(d)].active,
        current[mount_key_text(d)].last_severity == Some(last),
        severity_rank(sev) <= severity_rank(last),
        current[mount_key_text(d)].last_notification_at == Some(notified_at),
        rules.now - notified_at < rules.cooldown,
    ensures
        disk_step(current, next, d, rules).1 is None,
{
}

/// Once the cooldown has run out, an alert that is still active at the
/// same or a lower severity is repeated as a reminder.
pub proof fn law_reminder_after_cooldown(
    current: Map<Seq<char>, MountAlertState>,
    next: Map<Seq<char>, MountAlertState>,
    d: DiskInfo,
    rules: CheckRules,
    sev: AlertSeverity,
    last: AlertSeverity,
    notified_at: i64,
)
    requires
        disk_severity(d, rules.thresholds) == Some(sev),
        current.contains_key(mount_key_text(d)),
        current[mount_key_text(d)].active,
        current[mount_key_text(d)].last_severity == Some(last),
        severity_rank(sev) <= severity_rank(last),
        current[mount_key_text(d)].last_notification_at == Some(notified_at),
        rules.now - notified_at >= rules.cooldown,
    ensures
        disk_step(current, next, d, rules).1 == Some(AlertEventKind::Reminder),
{
}

/// An active alert whose usage fell to or below the recovery threshold
/// ends: its entry is dropped, and a recovery is notified when recovery
/// emails are on.
pub proof fn law_recovery(
    current: Map<Seq<char>, MountAlertState>,
    next: Map<Seq<char>, MountAlertState>,
    d: DiskInfo,
    rules: CheckRules,
)
    requires
        disk_severity(d, rules.thresholds) is None,
        current.contains_key(mount_key_text(d)),
        current[mount_key_text(d)].active,
        ratio_within(used_of(d), rules.recovery),
    ensures
        !disk_step(current, next, d, rules).0.contains_key(mount_key_text(d)),
        disk_step(current, next, d, rules).1 == if rules.send_recovery {
            Some(AlertEventKind::Recovery)
        } else {
            None
        },
{
}

/// Below the warning threshold but above the recovery threshold, an active
/// alert stays active and nothing is sent.
pub proof fn law_hysteresis(
    current: Map<Seq<char>, MountAlertState>,
    next: Map<Seq<char>, MountAlertState>,
    d: DiskInfo,
    rules: CheckRules,
)
    requires
        disk_severity(d, rules.thresholds) is None,
        current.contains_key(mount_key_text(d)),
        current[mount_key_text(d)].active,
        !ratio_within(used_of(d), rules.recovery),
        next.contains_key(mount_key_text(d)),
        next[mount_key_text(d)].active,
    ensures
        disk_step(current, next, d, rules).1 is None,
        disk_step(current, next, d, rules).0.contains_key(mount_key_text(d)),
        disk_step(current, next, d, rules).0[mount_key_text(d)].active,
{
}

/// The notification for a disk depends only on the state before the check,
/// not on the disks checked before it.
pub proof fn law_event_uses_prior_state(
    current: Map<Seq<char>, MountAlertState>,
    next1: Map<Seq<char>, MountAlertState>,
    next2: Map<Seq<char>, MountAlertState>,
    d: DiskInfo,
    rules: CheckRules,
)
    ensures
        disk_step(current, next1, d, rules).1 == disk_step(current, next2, d, rules).1,
{
}

/// Checking a disk changes only the entry of its own mount key.
pub proof fn law_step_is_local(
    current: Map<Seq<char>, MountAlertState>,
    next: Map<Seq<char>, MountAlertState>,
    d: DiskInfo,
    rules: CheckRules,
    k: Seq<char>,
)
    requires
        k != mount_key_text(d),
    ensures
        disk_step(current, next, d, rules).0.contains_key(k) == next.contains_key(k),
        next.contains_key(k) ==> disk_step(current, next, d, rules).0[k] == next[k],
{
}

/// Whether an event notifies the mount point: a new alert, an escalation
/// or a reminder.
pub open spec fn is_notification(e: Option<AlertEventKind>) -> bool {
    e == Some(AlertEventKind::Alert) || e == Some(AlertEventKind::Escalation) || e == Some(
        AlertEventKind::Reminder,
    )
}

/// When a disk is notified (new alert, escalation or reminder) at severity
/// `s`, its kept entry is active and records `s` and the instant of the
/// check as the last notification.
pub proof fn law_notification_recorded(
    current: Map<Seq<char>, MountAlertState>,
    next: Map<Seq<char>, MountAlertState>,
    d: DiskInfo,
    rules: CheckRules,
)
    requires
        current.contains_key(mount_key_text(d)) ==> next.contains_key(mount_key_text(d))
            && next[mount_key_text(d)].active,
    ensures
        is_notification(disk_step(current, next, d, rules).1) ==> {
            let e = disk_step(current, next, d, rules).0[mount_key_text(d)];
            &&& disk_step(current, next, d, rules).0.contains_key(mount_key_text(d))
            &&& e.active
            &&& disk_severity(d, rules.thresholds) is Some
            &&& e.last_severity == disk_severity(d, rules.thresholds)
            &&& e.last_notification_at == Some(rules.now)
        },
{
}

/// A notification is not repeated: after a check that notified a disk, a
/// later check of the same mount point at the same severity, before the
/// cooldown has run out, raises no event.
pub proof fn law_no_repeat_within_cooldown(
    current: Map<Seq<char>, MountAlertState>,
    d: DiskInfo,
    rules: CheckRules,
    d2: DiskInfo,
    rules2: CheckRules,
)
    requires
        current.contains_key(mount_key_text(d)) ==> current[mount_key_text(d)].active,
        is_notification(disk_step(current, current, d, rules).1),
        mount_key_text(d2) == mount_key_text(d),
        disk_severity(d2, rules2.thresholds) == disk_severity(d, rules.thresholds),
        rules2.now - rules.now < rules2.cooldown,
    ensures
        ({
            let after = disk_step(current, current, d, rules).0;
            disk_step(after, after, d2, rules2).1 is None
        }),
{
    law_notification_recorded(current, current, d, rules);
}

/// Every entry is an active alert.
pub open spec fn all_active(m: Map<Seq<char>, MountAlertState>) -> bool {
    forall|k: Seq<char>| #[trigger] m.contains_key(k) ==> m[k].active
}

proof fn lemma_check_prefix_active(
    current: Map<Seq<char>, MountAlertState>,
    disks: Seq<DiskInfo>,
    n: nat,
    rules: CheckRules,
)
    requires
        all_active(current),
        n <= disks.len(),
    ensures
        all_active(check_prefix(current, disks, n, rules).0),
    decreases n,
{
    if n > 0 {
        lemma_check_prefix_active(current, disks, (n - 1) as nat, rules);
        let m = check_prefix(current, disks, (n - 1) as nat, rules).0;
        let m2 = disk_step(current, m, disks[n - 1], rules).0;
        assert forall|k: Seq<char>| #[trigger] m2.contains_key(k) implies m2[k].active by {
            if k != mount_key_text(disks[n - 1]) {
                law_step_is_local(current, m, disks[n - 1], rules, k);
            }
        }
    }
}

/// A check keeps the state made only of active alerts: if every remembered
/// entry was active, every entry after the check is active.
pub proof fn law_entries_stay_active(
    current: Map<Seq<char>, MountAlertState>,
    disks: Seq<DiskInfo>,
    rules: CheckRules,
)
    requires
        all_active(current),
    ensures
        all_active(
            mark_unseen(check_prefix(current, disks, disks.len(), rules).0, seen_keys(disks)),
        ),
{
    lemma_check_prefix_active(current, disks, disks.len(), rules);
}

/// A report is sent exactly when there is at least one event.
pub proof fn law_report_iff_events(kinds: Seq<AlertEventKind>)
    ensures
        report_for(kinds) is None <==> kinds.len() == 0,
{
    if kinds.len() > 0 {
        match kinds[0] {
            AlertEventKind::Alert => {},
            AlertEventKind::Escalation => {},
            AlertEventKind::Reminder => {},
            AlertEventKind::Recovery => {},
        }
    }
}

} // verus!
