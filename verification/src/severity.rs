use vstd::prelude::*;

verus! {

/// How full a mount point is: `used` bytes out of `total` bytes.
///
/// The percentage it stands for is `used * 100 / total`, and `0` when
/// `total` is `0`. Thresholds are compared against this exact ratio.
#[derive(Clone, Copy, Debug, PartialEq, Eq, Structural)]
pub struct UsageRatio {
    pub used: u64,
    pub total: u64,
}

/// Numerator of the percentage, in hundredths of a percent.
pub open spec fn ratio_num(r: UsageRatio) -> int {
    if r.total == 0 { 0 } else { r.used as int * 10000 }
}

/// Denominator of the percentage, in hundredths of a percent.
pub open spec fn ratio_den(r: UsageRatio) -> int {
    if r.total == 0 { 1 } else { r.total as int }
}

/// The usage reaches `t` hundredths of a percent (`percent >= t / 100`).
pub open spec fn ratio_reaches(r: UsageRatio, t: i64) -> bool {
    ratio_num(r) >= t as int * ratio_den(r)
}

/// The usage is at most `t` hundredths of a percent (`percent <= t / 100`).
pub open spec fn ratio_within(r: UsageRatio, t: i64) -> bool {
    ratio_num(r) <= t as int * ratio_den(r)
}

/// Two ratios stand for the same percentage.
pub open spec fn ratio_same(a: UsageRatio, b: UsageRatio) -> bool {
    ratio_num(a) * ratio_den(b) == ratio_num(b) * ratio_den(a)
}

proof fn lemma_threshold_product_fits(t: i64, total: u64)
    ensures
        i128::MIN <= t as int * total as int <= i128::MAX,
{
    assert(-0x8000_0000_0000_0000int <= t as int <= 0x7fff_ffff_ffff_ffffint);
    assert(0 <= total as int <= 0xffff_ffff_ffff_ffffint);
    assert(-0x8000_0000_0000_0000int * 0xffff_ffff_ffff_ffffint <= t as int * total as int
        <= 0x7fff_ffff_ffff_ffffint * 0xffff_ffff_ffff_ffffint) by (nonlinear_arith)
        requires
            -0x8000_0000_0000_0000int <= t as int <= 0x7fff_ffff_ffff_ffffint,
            0 <= total as int <= 0xffff_ffff_ffff_ffffint,
    ;
}

proof fn lemma_u64_product_fits(a: u64, b: u64)
    ensures
        a as int * b as int <= u128::MAX,
{
    assert(a as int * b as int <= 0xffff_ffff_ffff_ffffint * 0xffff_ffff_ffff_ffffint)
        by (nonlinear_arith)
        requires
            a as int <= 0xffff_ffff_ffff_ffffint,
            b as int <= 0xffff_ffff_ffff_ffffint,
            0 <= a,
            0 <= b,
    ;
}

impl UsageRatio {
    /// Whether the usage reaches the threshold `t` (hundredths of a percent).
    pub fn reaches(&self, t: i64) -> (r: bool)
        ensures
            r == ratio_reaches(*self, t),
    {
        if self.total == 0 {
            t <= 0
        } else {
            proof {
                lemma_threshold_product_fits(t, self.total);
            }
            let lhs: i128 = self.used as i128 * 10000;
            let rhs: i128 = t as i128 * self.total as i128;
            lhs >= rhs
        }
    }

    /// Whether the usage is at most the threshold `t` (hundredths of a percent).
    pub fn within(&self, t: i64) -> (r: bool)
        ensures
            r == ratio_within(*self, t),
    {
        if self.total == 0 {
            0 <= t
        } else {
            proof {
                lemma_threshold_product_fits(t, self.total);
            }
            let lhs: i128 = self.used as i128 * 10000;
            let rhs: i128 = t as i128 * self.total as i128;
            lhs <= rhs
        }
    }

    /// Whether two ratios stand for the same percentage.
    pub fn same_as(&self, other: &UsageRatio) -> (r: bool)
        ensures
            r == ratio_same(*self, *other),
    {
        if self.total == 0 {
            other.total == 0 || other.used == 0
        } else if other.total == 0 {
            self.used == 0
        } else {
            proof {
                lemma_u64_product_fits(self.used, other.total);
                lemma_u64_product_fits(other.used, self.total);
            }
            let lhs: u128 = self.used as u128 * other.total as u128;
            let rhs: u128 = other.used as u128 * self.total as u128;
            proof {
                let a = self.used as int;
                let b = other.total as int;
                let c = other.used as int;
                let d = self.total as int;
                assert((a * 10000) * b == (c * 10000) * d <==> a * b == c * d) by (nonlinear_arith);
            }
            lhs == rhs
        }
    }
}

/// Severity of a mount point over its thresholds, lowest first.
#[derive(Clone, Copy, Debug, PartialEq, Eq, Structural)]
pub enum AlertSeverity {
    Warning,
    Critical,
    Emergency,
}

/// Position of a severity in the order Warning < Critical < Emergency.
pub open spec fn severity_rank(s: AlertSeverity) -> int {
    match s {
        AlertSeverity::Warning => 0,
        AlertSeverity::Critical => 1,
        AlertSeverity::Emergency => 2,
    }
}

impl AlertSeverity {
    /// Position of the severity in the order Warning < Critical < Emergency.
    pub fn rank(&self) -> (r: u8)
        ensures
            r as int == severity_rank(*self),
    {
        match self {
            AlertSeverity::Warning => 0,
            AlertSeverity::Critical => 1,
            AlertSeverity::Emergency => 2,
        }
    }

    /// Whether `self` is a strictly higher severity than `other`.
    pub fn is_above(&self, other: &AlertSeverity) -> (r: bool)
        ensures
            r == (severity_rank(*self) > severity_rank(*other)),
    {
        self.rank() > other.rank()
    }
}

/// The three entry thresholds, each in hundredths of a percent of used space.
#[derive(Clone, Copy, Debug, PartialEq, Eq, Structural)]
pub struct AlertThresholds {
    pub warning: i64,
    pub critical: i64,
    pub emergency: i64,
}

/// Severity reached by a usage: the highest threshold that it reaches,
/// checked from Emergency down; `None` below the warning threshold.
pub open spec fn severity_of(r: UsageRatio, th: AlertThresholds) -> Option<AlertSeverity> {
    if ratio_reaches(r, th.emergency) {
        Some(AlertSeverity::Emergency)
    } else if ratio_reaches(r, th.critical) {
        Some(AlertSeverity::Critical)
    } else if ratio_reaches(r, th.warning) {
        Some(AlertSeverity::Warning)
    } else {
        None
    }
}

/// Severity for a usage under the given thresholds.
pub fn severity_for_percent(used: UsageRatio, thresholds: AlertThresholds) -> (r: Option<
    AlertSeverity,
>)
    ensures
        r == severity_of(used, thresholds),
{
    if used.reaches(thresholds.emergency) {
        Some(AlertSeverity::Emergency)
    } else if used.reaches(thresholds.critical) {
        Some(AlertSeverity::Critical)
    } else if used.reaches(thresholds.warning) {
        Some(AlertSeverity::Warning)
    } else {
        None
    }
}

/// Text shown for a severity.
pub open spec fn severity_label_text(s: AlertSeverity) -> Seq<char> {
    match s {
        AlertSeverity::Warning => "WARNING"@,
        AlertSeverity::Critical => "CRITICAL"@,
        AlertSeverity::Emergency => "EMERGENCY"@,
    }
}

/// Text shown for a severity.
pub fn severity_label(severity: AlertSeverity) -> (r: &'static str)
    ensures
        r@ == severity_label_text(severity),
{
    match severity {
        AlertSeverity::Warning => "WARNING",
        AlertSeverity::Critical => "CRITICAL",
        AlertSeverity::Emergency => "EMERGENCY",
    }
}

/// Colour of the status banner for a severity.
pub open spec fn severity_color_text(s: AlertSeverity) -> Seq<char> {
    match s {
        AlertSeverity::Warning => "#b54708"@,
        AlertSeverity::Critical => "#b42318"@,
        AlertSeverity::Emergency => "#7a271a"@,
    }
}

/// Colour of the status banner for a severity.
pub fn severity_color(severity: AlertSeverity) -> (r: &'static str)
    ensures
        r@ == severity_color_text(severity),
{
    match severity {
        AlertSeverity::Warning => "#b54708",
        AlertSeverity::Critical => "#b42318",
        AlertSeverity::Emergency => "#7a271a",
    }
}

/// Background colour of a table row for a severity.
pub open spec fn severity_row_color_text(s: AlertSeverity) -> Seq<char> {
    match s {
        AlertSeverity::Warning => "#fef3c7"@,
        AlertSeverity::Critical => "#fee2e2"@,
        AlertSeverity::Emergency => "#fecaca"@,
    }
}

/// Background colour of a table row for a severity.
pub fn severity_row_color(severity: AlertSeverity) -> (r: &'static str)
    ensures
        r@ == severity_row_color_text(severity),
{
    match severity {
        AlertSeverity::Warning => "#fef3c7",
        AlertSeverity::Critical => "#fee2e2",
        AlertSeverity::Emergency => "#fecaca",
    }
}

/// HTML badge text for an optional severity.
pub open spec fn severity_html_text(s: Option<AlertSeverity>) -> Seq<char> {
    match s {
        Some(AlertSeverity::Warning) => "<span class=\"text-warning\">WARNING</span>"@,
        Some(AlertSeverity::Critical) => "<span class=\"text-critical\">CRITICAL</span>"@,
        Some(AlertSeverity::Emergency) => "<span class=\"text-emergency\">EMERGENCY</span>"@,
        None => "<span class=\"text-ok\">OK</span>"@,
    }
}

/// HTML badge text for an optional severity.
pub fn severity_html(severity: Option<AlertSeverity>) -> (r: String)
    ensures
        r@ == severity_html_text(severity),
{
    match severity {
        Some(AlertSeverity::Warning) => String::from_str(
            "<span class=\"text-warning\">WARNING</span>",
        ),
        Some(AlertSeverity::Critical) => String::from_str(
            "<span class=\"text-critical\">CRITICAL</span>",
        ),
        Some(AlertSeverity::Emergency) => String::from_str(
            "<span class=\"text-emergency\">EMERGENCY</span>",
        ),
        None => String::from_str("<span class=\"text-ok\">OK</span>"),
    }
}

/// Severity only rises with usage: under thresholds in ascending order,
/// a usage that is at least another one gets a severity at least as high,
/// and one that reaches a severity keeps reaching the lower ones.
pub proof fn law_severity_monotone(a: UsageRatio, b: UsageRatio, th: AlertThresholds)
    requires
        th.warning <= th.critical <= th.emergency,
        ratio_num(a) * ratio_den(b) <= ratio_num(b) * ratio_den(a),
    ensures
        severity_of(a, th) is Some ==> severity_of(b, th) is Some,
        severity_of(a, th) is Some ==> severity_rank(severity_of(a, th)->0) <= severity_rank(
            severity_of(b, th)->0,
        ),
{
    assert forall|t: i64| ratio_reaches(a, t) implies ratio_reaches(b, t) by {
        let an = ratio_num(a);
        let ad = ratio_den(a);
        let bn = ratio_num(b);
        let bd = ratio_den(b);
        assert(ad > 0 && bd > 0);
        assert(bn >= t as int * bd) by (nonlinear_arith)
            requires
                an >= t as int * ad,
                an * bd <= bn * ad,
                ad > 0,
                bd > 0,
        ;
    }
}

} // verus!
