use vstd::prelude::*;

use crate::alert::ReportKind;
use crate::config::Config;
use crate::disk::{DiskInfo, alert_disks, alerting};
use crate::report::{display_name, display_name_text, os_info, os_info_text};
use crate::severity::AlertThresholds;
use crate::system::SystemInfo;
use crate::text::{lower_text, split_text, to_lower, trim_text, trimmed, split_on};

verus! {

/// Marker that starts a subject, by kind of report.
pub open spec fn subject_prefix_text(
    kind: ReportKind,
    disks: Seq<DiskInfo>,
    th: AlertThresholds,
) -> Seq<char> {
    match kind {
        ReportKind::Alert => "🔴 [ALARMĂ]"@,
        ReportKind::Reminder => "🔴 [REMINDER ALARMĂ]"@,
        ReportKind::Recovery => "🟢 [REVENIRE OK]"@,
        ReportKind::Forced => if alerting(disks, th).len() == 0 {
            "🟢 [RAPORT OK]"@
        } else {
            "🔴 [RAPORT ALERTĂ]"@
        },
    }
}

/// Marker that starts a subject: red for alerts, green when all is well.
pub fn subject_prefix(
    report_kind: ReportKind,
    disks: &[DiskInfo],
    thresholds: AlertThresholds,
) -> (r: &'static str)
    ensures
        r@ == subject_prefix_text(report_kind, disks@, thresholds),
{
    match report_kind {
        ReportKind::Alert => "🔴 [ALARMĂ]",
        ReportKind::Reminder => "🔴 [REMINDER ALARMĂ]",
        ReportKind::Recovery => "🟢 [REVENIRE OK]",
        ReportKind::Forced => {
            let problems = alert_disks(disks, thresholds);
            proof {
                assert(problems@.len() == problems@.map_values(|d: &DiskInfo| *d).len());
            }
            if problems.len() == 0 {
                "🟢 [RAPORT OK]"
            } else {
                "🔴 [RAPORT ALERTĂ]"
            }
        },
    }
}

/// Tag after the marker of a subject, by kind of report.
pub open spec fn subject_tag_text(kind: ReportKind) -> Seq<char> {
    match kind {
        ReportKind::Forced => " [RAPORT ZILNIC] System Disk Report - "@,
        ReportKind::Alert => " [DEPĂSIRE PRAG DE STOCARE] System Disk Report - "@,
        _ => " [STOCARE] System Disk Report - "@,
    }
}

/// Subject of a report: marker, tag, machine name and system description.
pub open spec fn subject_text(
    cfg: Config,
    disks: Seq<DiskInfo>,
    info: SystemInfo,
    kind: ReportKind,
    th: AlertThresholds,
) -> Seq<char> {
    subject_prefix_text(kind, disks, th) + subject_tag_text(kind) + display_name_text(cfg, info)
        + " ("@ + os_info_text(info) + ")"@
}

fn subject_tag(kind: ReportKind) -> (r: &'static str)
    ensures
        r@ == subject_tag_text(kind),
{
    match kind {
        ReportKind::Forced => " [RAPORT ZILNIC] System Disk Report - ",
        ReportKind::Alert => " [DEPĂSIRE PRAG DE STOCARE] System Disk Report - ",
        _ => " [STOCARE] System Disk Report - ",
    }
}

/// Subject of the email of a report.
pub fn email_subject(
    cfg: &Config,
    disks: &[DiskInfo],
    system_info: &SystemInfo,
    report_kind: ReportKind,
    thresholds: AlertThresholds,
) -> (r: String)
    ensures
        r@ == subject_text(*cfg, disks@, *system_info, report_kind, thresholds),
{
    let os = os_info(system_info);
    let mut s = String::from_str(subject_prefix(report_kind, disks, thresholds));
    s.append(subject_tag(report_kind));
    s.append(display_name(cfg, system_info));
    s.append(" (");
    s.append(os.as_str());
    s.append(")");
    s
}

/// How the connection to the mail server is secured.
#[derive(Clone, Copy, Debug, PartialEq, Eq, Structural)]
pub enum SmtpSecurity {
    /// A plain connection, without encryption (`none`).
    Plain,
    /// Implicit TLS: TLS from the first byte of the connection (`ssl`).
    Ssl,
    /// STARTTLS: a plain connection that is upgraded to TLS with the
    /// `STARTTLS` command before logging in or sending (`starttls`, the
    /// default).
    StartTls,
}

/// Security mode set by the configuration: `none` and `ssl` (in any case)
/// select those modes; anything else, or nothing, selects the default
/// mode.
pub open spec fn security_of(cfg: Config) -> SmtpSecurity {
    match cfg.smtp_security {
        Some(s) => if lower_text(s@) == "none"@ {
            SmtpSecurity::Plain
        } else if lower_text(s@) == "ssl"@ {
            SmtpSecurity::Ssl
        } else {
            SmtpSecurity::StartTls
        },
        None => SmtpSecurity::StartTls,
    }
}

/// Security mode of the connection to the mail server.
pub fn smtp_security(cfg: &Config) -> (r: SmtpSecurity)
    ensures
        r == security_of(*cfg),
{
    match &cfg.smtp_security {
        Some(s) => {
            let lower = to_lower(s.as_str());
            if lower == String::from_str("none") {
                SmtpSecurity::Plain
            } else if lower == String::from_str("ssl") {
                SmtpSecurity::Ssl
            } else {
                SmtpSecurity::StartTls
            }
        },
        None => SmtpSecurity::StartTls,
    }
}

/// Whether the user and the password are both blank.
pub open spec fn blank_credentials(cfg: Config) -> bool {
    trimmed(cfg.smtp_user@).len() == 0 && trimmed(cfg.smtp_pass@).len() == 0
}

/// How to reach and log in to the mail server.
#[derive(Debug)]
pub struct SmtpSettings {
    pub server: String,
    pub port: u16,
    pub security: SmtpSecurity,
    /// User and password to log in with; none when not logging in.
    pub credentials: Option<(String, String)>,
}

/// The connection to the mail server that the configuration sets: its
/// server and port; no encryption for `none`, implicit TLS for `ssl`, and a
/// STARTTLS upgrade for anything else or nothing (`security_of`); and the
/// configured user and password unless both are blank.
pub fn smtp_settings(cfg: &Config) -> (r: SmtpSettings)
    ensures
        r.server@ == cfg.smtp_server@,
        r.port == cfg.smtp_port,
        r.security == security_of(*cfg),
        (cfg.smtp_security is None ==> r.security == SmtpSecurity::StartTls),
        match r.credentials {
            Some((user, pass)) => !blank_credentials(*cfg) && user@ == cfg.smtp_user@ && pass@
                == cfg.smtp_pass@,
            None => blank_credentials(*cfg),
        },
{
    let credentials = if use_auth(cfg) {
        Some((cfg.smtp_user.clone(), cfg.smtp_pass.clone()))
    } else {
        None
    };
    SmtpSettings {
        server: cfg.smtp_server.clone(),
        port: cfg.smtp_port,
        security: smtp_security(cfg),
        credentials,
    }
}

/// Whether to log in to the mail server: unless both the user and the
/// password are blank.
pub fn use_auth(cfg: &Config) -> (r: bool)
    ensures
        r == !(trimmed(cfg.smtp_user@).len() == 0 && trimmed(cfg.smtp_pass@).len() == 0),
{
    let user = trim_text(cfg.smtp_user.as_str());
    let pass = trim_text(cfg.smtp_pass.as_str());
    !(user.unicode_len() == 0 && pass.unicode_len() == 0)
}

/// The non-blank entries of a comma-separated list, trimmed, in order.
pub open spec fn recipients_of(list: Seq<char>) -> Seq<Seq<char>> {
    let parts = split_on(list, ',');
    let trimmed_parts = Seq::new(parts.len(), |i: int| trimmed(parts[i]));
    trimmed_parts.filter(|p: Seq<char>| p.len() > 0)
}

/// The addresses of a comma-separated recipient list.
pub fn recipients(email_to: &str) -> (r: Vec<String>)
    ensures
        r@.len() == recipients_of(email_to@).len(),
        forall|i: int| 0 <= i < r@.len() ==> #[trigger] r@[i]@ == recipients_of(email_to@)[i],
{
    let parts = split_text(email_to, ',');
    let ghost all = Seq::new(parts@.len(), |i: int| trimmed(parts@[i]@));
    let mut r: Vec<String> = Vec::new();
    let n = parts.len();
    let mut i: usize = 0;
    while i < n
        invariant
            n == parts@.len(),
            i <= n,
            all == Seq::new(parts@.len(), |i: int| trimmed(parts@[i]@)),
            r@.len() == all.take(i as int).filter(|p: Seq<char>| p.len() > 0).len(),
            forall|j: int|
                0 <= j < r@.len() ==> #[trigger] r@[j]@ == all.take(i as int).filter(
                    |p: Seq<char>| p.len() > 0,
                )[j],
        decreases n - i,
    {
        let t = trim_text(parts[i].as_str());
        proof {
            reveal_with_fuel(Seq::filter, 1);
            assert(all.take(i + 1).drop_last() =~= all.take(i as int));
            assert(all.take(i + 1).last() == t@);
        }
        if t.unicode_len() > 0 {
            r.push(t);
        }
        i = i + 1;
    }
    proof {
        assert(all.take(n as int) =~= all);
        assert(all == Seq::new(split_on(email_to@, ',').len(), |i: int| trimmed(split_on(email_to@, ',')[i])));
    }
    r
}

/// Each entry kept by a filter comes from the filtered sequence.
pub broadcast proof fn lemma_filter_source<A>(s: Seq<A>, pred: spec_fn(A) -> bool, i: int)
    requires
        0 <= i < s.filter(pred).len(),
    ensures
        s.contains(#[trigger] s.filter(pred)[i]),
    decreases s.len(),
{
    reveal_with_fuel(Seq::filter, 1);
    let prev = s.drop_last().filter(pred);
    if i < prev.len() {
        lemma_filter_source(s.drop_last(), pred, i);
        let j = choose|j: int| 0 <= j < s.drop_last().len() && s.drop_last()[j] == prev[i];
        assert(s[j] == s.filter(pred)[i]);
    } else {
        assert(s[s.len() - 1] == s.filter(pred)[i]);
    }
}

/// Whether `x` is one of the comma-separated pieces of `list`, trimmed.
pub open spec fn trimmed_piece(list: Seq<char>, x: Seq<char>) -> bool {
    exists|j: int| 0 <= j < split_on(list, ',').len() && x == trimmed(#[trigger] split_on(list, ',')[j])
}

/// The recipient list holds no blank entry, and every entry is a trimmed
/// piece of the comma-separated text.
pub proof fn law_recipients(list: Seq<char>)
    ensures
        forall|i: int|
            0 <= i < recipients_of(list).len() ==> (#[trigger] recipients_of(list)[i]).len() > 0,
        forall|i: int|
            0 <= i < recipients_of(list).len() ==> trimmed_piece(list, #[trigger] recipients_of(list)[i]),
{
    broadcast use {vstd::seq_lib::group_filter_ensures, lemma_filter_source};

    let parts = split_on(list, ',');
    let t = Seq::new(parts.len(), |k: int| trimmed(parts[k]));
    assert forall|i: int| 0 <= i < recipients_of(list).len() implies (#[trigger] recipients_of(
        list,
    )[i]).len() > 0 by {}
    assert forall|i: int| 0 <= i < recipients_of(list).len() implies trimmed_piece(
        list,
        #[trigger] recipients_of(list)[i],
    ) by {
        assert(t.contains(recipients_of(list)[i]));
        let k = choose|k: int| 0 <= k < t.len() && t[k] == recipients_of(list)[i];
        assert(recipients_of(list)[i] == trimmed(parts[k]));
    }
}

/// Attempts at sending an email before giving up.
pub const SMTP_MAX_ATTEMPTS: u32 = 3;

/// What to do after a failed attempt at sending.
#[derive(Clone, Copy, Debug, PartialEq, Eq, Structural)]
pub enum RetryStep {
    /// All attempts are used up.
    Exhausted,
    /// The retry schedule gives no further delay.
    NoMoreDelays,
    /// Wait `delay_ms` milliseconds, then make attempt `next_attempt`.
    Wait { delay_ms: u64, next_attempt: u32 },
}

/// Decision after attempt `attempt` failed, given the next delay of the
/// retry schedule (none when the schedule is over).
pub open spec fn retry_step_of(attempt: u32, next_delay_ms: Option<u64>) -> RetryStep {
    if attempt >= SMTP_MAX_ATTEMPTS {
        RetryStep::Exhausted
    } else {
        match next_delay_ms {
            Some(d) => RetryStep::Wait { delay_ms: d, next_attempt: (attempt + 1) as u32 },
            None => RetryStep::NoMoreDelays,
        }
    }
}

/// Decision after a failed attempt at sending.
pub fn after_failed_attempt(attempt: u32, next_delay_ms: Option<u64>) -> (r: RetryStep)
    ensures
        r == retry_step_of(attempt, next_delay_ms),
{
    if attempt >= SMTP_MAX_ATTEMPTS {
        RetryStep::Exhausted
    } else {
        match next_delay_ms {
            Some(d) => RetryStep::Wait { delay_ms: d, next_attempt: attempt + 1 },
            None => RetryStep::NoMoreDelays,
        }
    }
}

/// Sending is tried at most three times: from any attempt, following the
/// waits leads to giving up by the third attempt.
pub proof fn law_retries_are_bounded(attempt: u32, next_delay_ms: Option<u64>)
    requires
        attempt >= 1,
    ensures
        retry_step_of(attempt, next_delay_ms) matches RetryStep::Wait { next_attempt, .. }
            ==> next_attempt == attempt + 1 && next_attempt <= SMTP_MAX_ATTEMPTS,
        attempt >= SMTP_MAX_ATTEMPTS ==> retry_step_of(attempt, next_delay_ms)
            == RetryStep::Exhausted,
{
}

/// Declares lettre's mailbox (a display name and an address) to Verus.
#[verifier::external_type_specification]
#[verifier::external_body]
pub struct ExMailbox(lettre::message::Mailbox);

/// Declares lettre's error for a text that is not a mailbox.
#[verifier::external_type_specification]
#[verifier::external_body]
pub struct ExAddressError(lettre::address::AddressError);

/// What lettre's `Mailbox::from_str` gives for a text: the mailbox, or
/// why the text is not one.
pub uninterp spec fn mailbox_parse(text: Seq<char>) -> Result<
    lettre::message::Mailbox,
    lettre::address::AddressError,
>;

/// Whether lettre reads a text as a mailbox (`Name <user@domain>` or a
/// bare address).
pub open spec fn mailbox_accepts(text: Seq<char>) -> bool {
    mailbox_parse(text) is Ok
}

/// `Mailbox::from_str` from lettre: parses a mailbox, checking the user
/// and domain parts. The parse depends on the text alone; which texts it
/// accepts, and the mailbox or error it gives, are only named.
#[verifier::external_body]
fn parse_mailbox(text: &str) -> (r: Result<lettre::message::Mailbox, lettre::address::AddressError>)
    ensures
        r == mailbox_parse(text@),
{
    text.parse()
}

/// Why the addresses of an email could not be read.
#[derive(Debug)]
pub enum MailError {
    /// The sender address is not a mailbox.
    InvalidSender(lettre::address::AddressError),
    /// A recipient address is not a mailbox.
    InvalidRecipient { address: String, error: lettre::address::AddressError },
}

/// The sender and recipients of an email.
#[derive(Debug)]
pub struct MailAddresses {
    pub from: lettre::message::Mailbox,
    pub to: Vec<lettre::message::Mailbox>,
}

/// Whether every text of a list is a mailbox.
pub open spec fn all_accepted(list: Seq<Seq<char>>) -> bool {
    forall|i: int| 0 <= i < list.len() ==> #[trigger] mailbox_accepts(list[i])
}

/// Whether `k` is the first position of a list that holds no mailbox.
pub open spec fn first_rejected(list: Seq<Seq<char>>, k: int) -> bool {
    &&& 0 <= k < list.len()
    &&& !mailbox_accepts(list[k])
    &&& forall|j: int| 0 <= j < k ==> #[trigger] mailbox_accepts(list[j])
}

/// The sender and recipients of the report email: the sender address, then
/// each recipient of the list in order; the first that is not a mailbox
/// stops the reading with its error.
pub fn mail_addresses(cfg: &Config) -> (r: Result<MailAddresses, MailError>)
    ensures
        match r {
            Ok(a) => {
                &&& mailbox_parse(cfg.email_from@) == Ok::<
                    lettre::message::Mailbox,
                    lettre::address::AddressError,
                >(a.from)
                &&& a.to@.len() == recipients_of(cfg.email_to@).len()
                &&& forall|i: int|
                    0 <= i < a.to@.len() ==> mailbox_parse(recipients_of(cfg.email_to@)[i])
                        == Ok::<lettre::message::Mailbox, lettre::address::AddressError>(
                        #[trigger] a.to@[i],
                    )
            },
            Err(MailError::InvalidSender(e)) => mailbox_parse(cfg.email_from@) == Err::<
                lettre::message::Mailbox,
                lettre::address::AddressError,
            >(e),
            Err(MailError::InvalidRecipient { address, error }) => {
                &&& mailbox_accepts(cfg.email_from@)
                &&& exists|k: int|
                    first_rejected(recipients_of(cfg.email_to@), k) && #[trigger] recipients_of(
                        cfg.email_to@,
                    )[k] == address@
                &&& mailbox_parse(address@) == Err::<
                    lettre::message::Mailbox,
                    lettre::address::AddressError,
                >(error)
            },
        },
{
    let from = match parse_mailbox(cfg.email_from.as_str()) {
        Ok(m) => m,
        Err(e) => return Err(MailError::InvalidSender(e)),
    };
    let list = recipients(cfg.email_to.as_str());
    let ghost want = recipients_of(cfg.email_to@);
    let n = list.len();
    let mut to: Vec<lettre::message::Mailbox> = Vec::new();
    let mut i: usize = 0;
    while i < n
        invariant
            n == list@.len(),
            n == want.len(),
            want == recipients_of(cfg.email_to@),
            mailbox_parse(cfg.email_from@) == Ok::<
                lettre::message::Mailbox,
                lettre::address::AddressError,
            >(from),
            forall|j: int| 0 <= j < n ==> #[trigger] list@[j]@ == want[j],
            i <= n,
            to@.len() == i,
            forall|j: int|
                0 <= j < i ==> mailbox_parse(want[j]) == Ok::<
                    lettre::message::Mailbox,
                    lettre::address::AddressError,
                >(#[trigger] to@[j]),
        decreases n - i,
    {
        match parse_mailbox(list[i].as_str()) {
            Ok(m) => {
                to.push(m);
            },
            Err(e) => {
                let address = list[i].clone();
                assert(forall|j: int| 0 <= j < i ==> mailbox_accepts(#[trigger] want[j])) by {
                    assert forall|j: int| 0 <= j < i implies mailbox_accepts(#[trigger] want[j]) by {
                        let m = to@[j];
                        assert(mailbox_parse(want[j]) is Ok);
                    }
                }
                assert(first_rejected(want, i as int));
                assert(want[i as int] == address@);
                return Err(MailError::InvalidRecipient { address, error: e });
            },
        }
        i = i + 1;
    }
    Ok(MailAddresses { from, to })
}

} // verus!
