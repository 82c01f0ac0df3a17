use vstd::prelude::*;

use crate::alert::ReportKind;
use crate::disk::{DiskInfo, alert_disks, alerting, disk_severity, mount_key, mount_key_text, used_of};
use crate::format::{
    format_growth, format_time_to_full, gb_text, growth_text, percent_text, push_gb, push_percent,
    time_to_full_text,
};
use crate::keyed_map::KeyedMap;
use crate::severity::{
    AlertSeverity, AlertThresholds, UsageRatio, ratio_den, ratio_num, severity_for_percent,
    severity_html, severity_html_text,
};
use crate::text::{decimal, escape_html, escape_text, push_decimal, push_escaped};
use crate::trend::TrendInfo;

verus! {

/// Number of disks whose severity is `s` (`None` counts the disks that are OK).
pub open spec fn severity_count(
    disks: Seq<DiskInfo>,
    th: AlertThresholds,
    s: Option<AlertSeverity>,
) -> nat
    decreases disks.len(),
{
    if disks.len() == 0 {
        0
    } else {
        severity_count(disks.drop_last(), th, s) + if disk_severity(disks.last(), th) == s {
            1nat
        } else {
            0nat
        }
    }
}

/// Numbers of disks that are OK, WARNING, CRITICAL and EMERGENCY.
pub fn severity_counts(disks: &[DiskInfo], thresholds: AlertThresholds) -> (r: (
    usize,
    usize,
    usize,
    usize,
))
    ensures
        r.0 == severity_count(disks@, thresholds, None),
        r.1 == severity_count(disks@, thresholds, Some(AlertSeverity::Warning)),
        r.2 == severity_count(disks@, thresholds, Some(AlertSeverity::Critical)),
        r.3 == severity_count(disks@, thresholds, Some(AlertSeverity::Emergency)),
{
    let mut ok: usize = 0;
    let mut warning: usize = 0;
    let mut critical: usize = 0;
    let mut emergency: usize = 0;
    let n = disks.len();
    let mut i: usize = 0;
    while i < n
        invariant
            n == disks@.len(),
            i <= n,
            ok == severity_count(disks@.take(i as int), thresholds, None),
            warning == severity_count(
                disks@.take(i as int),
                thresholds,
                Some(AlertSeverity::Warning),
            ),
            critical == severity_count(
                disks@.take(i as int),
                thresholds,
                Some(AlertSeverity::Critical),
            ),
            emergency == severity_count(
                disks@.take(i as int),
                thresholds,
                Some(AlertSeverity::Emergency),
            ),
            ok + warning + critical + emergency == i,
        decreases n - i,
    {
        assert(disks@.take(i + 1).drop_last() =~= disks@.take(i as int));
        assert(disks@.take(i + 1).last() == disks@[i as int]);
        match severity_for_percent(disks[i].used_ratio(), thresholds) {
            Some(AlertSeverity::Warning) => warning = warning + 1,
            Some(AlertSeverity::Critical) => critical = critical + 1,
            Some(AlertSeverity::Emergency) => emergency = emergency + 1,
            None => ok = ok + 1,
        }
        i = i + 1;
    }
    assert(disks@.take(n as int) =~= disks@);
    (ok, warning, critical, emergency)
}

/// Every disk is counted under exactly one status.
pub proof fn law_severity_counts_cover(disks: Seq<DiskInfo>, th: AlertThresholds)
    ensures
        severity_count(disks, th, None) + severity_count(disks, th, Some(AlertSeverity::Warning))
            + severity_count(disks, th, Some(AlertSeverity::Critical)) + severity_count(
            disks,
            th,
            Some(AlertSeverity::Emergency),
        ) == disks.len(),
    decreases disks.len(),
{
    if disks.len() > 0 {
        law_severity_counts_cover(disks.drop_last(), th);
    }
}

/// Some disk has severity `s`.
pub open spec fn any_at(disks: Seq<DiskInfo>, th: AlertThresholds, s: AlertSeverity) -> bool {
    exists|i: int| 0 <= i < disks.len() && disk_severity(#[trigger] disks[i], th) == Some(s)
}

/// Some trend is marked abnormal.
pub open spec fn any_abnormal(trends: Map<Seq<char>, TrendInfo>) -> bool {
    exists|k: Seq<char>| #[trigger] trends.contains_key(k) && trends[k].abnormal_growth
}

/// Overall status: the highest severity of any disk, else a trend warning
/// when some growth is abnormal, else OK.
pub open spec fn status_text(
    disks: Seq<DiskInfo>,
    th: AlertThresholds,
    trends: Map<Seq<char>, TrendInfo>,
) -> Seq<char> {
    if any_at(disks, th, AlertSeverity::Emergency) {
        "EMERGENCY"@
    } else if any_at(disks, th, AlertSeverity::Critical) {
        "CRITICAL"@
    } else if any_at(disks, th, AlertSeverity::Warning) {
        "WARNING"@
    } else if any_abnormal(trends) {
        "ATENTIE TREND"@
    } else {
        "OK"@
    }
}

fn has_severity(disks: &[DiskInfo], thresholds: AlertThresholds, s: AlertSeverity) -> (r: bool)
    ensures
        r == any_at(disks@, thresholds, s),
{
    let n = disks.len();
    let mut i: usize = 0;
    while i < n
        invariant
            n == disks@.len(),
            i <= n,
            forall|j: int| 0 <= j < i ==> disk_severity(#[trigger] disks@[j], thresholds) != Some(s),
        decreases n - i,
    {
        match severity_for_percent(disks[i].used_ratio(), thresholds) {
            Some(x) => {
                if x == s {
                    return true;
                }
            },
            None => {},
        }
        i = i + 1;
    }
    false
}

/// Whether some trend is marked abnormal.
pub fn has_abnormal_trend(trends: &KeyedMap<TrendInfo>) -> (r: bool)
    requires
        trends.wf(),
    ensures
        r == any_abnormal(trends@),
{
    proof {
        trends.lemma_view_keys();
        trends.lemma_sizes();
    }
    let n = trends.len();
    let mut i: usize = 0;
    while i < n
        invariant
            trends.wf(),
            n == trends.keys().len(),
            i <= n,
            forall|j: int| 0 <= j < i ==> !(#[trigger] trends.values()[j]).abnormal_growth,
        decreases n - i,
    {
        if trends.value_at(i).abnormal_growth {
            proof {
                trends.lemma_view_at(i as int);
            }
            return true;
        }
        i = i + 1;
    }
    proof {
        assert forall|k: Seq<char>| #[trigger] trends@.contains_key(k) implies !trends@[k].abnormal_growth by {
            let j = choose|j: int| 0 <= j < trends.keys().len() && trends.keys()[j] == k;
            trends.lemma_view_at(j);
        }
    }
    false
}

/// Overall status of the disks.
pub fn overall_status(
    disks: &[DiskInfo],
    thresholds: AlertThresholds,
    trends: &KeyedMap<TrendInfo>,
) -> (r: &'static str)
    requires
        trends.wf(),
    ensures
        r@ == status_text(disks@, thresholds, trends@),
{
    if has_severity(disks, thresholds, AlertSeverity::Emergency) {
        "EMERGENCY"
    } else if has_severity(disks, thresholds, AlertSeverity::Critical) {
        "CRITICAL"
    } else if has_severity(disks, thresholds, AlertSeverity::Warning) {
        "WARNING"
    } else if has_abnormal_trend(trends) {
        "ATENTIE TREND"
    } else {
        "OK"
    }
}

/// Header cells of a table, each escaped.
pub open spec fn header_cells(headers: Seq<Seq<char>>) -> Seq<char>
    decreases headers.len(),
{
    if headers.len() == 0 {
        Seq::empty()
    } else {
        header_cells(headers.drop_last()) + "<th>"@ + escape_text(headers.last()) + "</th>"@
    }
}

/// Cells of one row, written as they are.
pub open spec fn row_cells(cells: Seq<Seq<char>>) -> Seq<char>
    decreases cells.len(),
{
    if cells.len() == 0 {
        Seq::empty()
    } else {
        row_cells(cells.drop_last()) + "<td>"@ + cells.last() + "</td>"@
    }
}

/// Rows of a table.
pub open spec fn table_rows(rows: Seq<Seq<Seq<char>>>) -> Seq<char>
    decreases rows.len(),
{
    if rows.len() == 0 {
        Seq::empty()
    } else {
        table_rows(rows.drop_last()) + "<tr>"@ + row_cells(rows.last()) + "</tr>"@
    }
}

/// A small table with the given headers and rows, or a note that there is
/// not enough data when there are no rows.
pub open spec fn table_text(headers: Seq<Seq<char>>, rows: Seq<Seq<Seq<char>>>) -> Seq<char> {
    if rows.len() == 0 {
        "<p class=\"empty\">Nu exista date suficiente.</p>"@
    } else {
        "<table class=\"mini\"><thead><tr>"@ + header_cells(headers) + "</tr></thead><tbody>"@
            + table_rows(rows) + "</tbody></table>"@
    }
}

/// The texts of a list of header strings.
pub open spec fn strs_view(headers: Seq<&str>) -> Seq<Seq<char>> {
    Seq::new(headers.len(), |i: int| headers[i]@)
}

/// The texts of the cells of a list of rows.
pub open spec fn rows_view(rows: Seq<Vec<String>>) -> Seq<Seq<Seq<char>>> {
    Seq::new(rows.len(), |i: int| Seq::new(rows[i]@.len(), |j: int| rows[i]@[j]@))
}

/// A small HTML table with the given headers and rows.
pub fn executive_table(headers: &[&str], rows: Vec<Vec<String>>) -> (r: String)
    ensures
        r@ == table_text(strs_view(headers@), rows_view(rows@)),
{
    if rows.len() == 0 {
        return String::from_str("<p class=\"empty\">Nu exista date suficiente.</p>");
    }
    let mut s = String::from_str("<table class=\"mini\"><thead><tr>");
    let ghost start = s@;
    let nh = headers.len();
    let mut i: usize = 0;
    while i < nh
        invariant
            nh == headers@.len(),
            i <= nh,
            s@ == start + header_cells(strs_view(headers@).take(i as int)),
        decreases nh - i,
    {
        s.append("<th>");
        push_escaped(&mut s, headers[i]);
        s.append("</th>");
        proof {
            let v = strs_view(headers@);
            assert(v.take(i + 1).drop_last() =~= v.take(i as int));
            assert(v.take(i + 1).last() == headers@[i as int]@);
            assert(s@ =~= start + header_cells(v.take(i + 1)));
        }
        i = i + 1;
    }
    assert(strs_view(headers@).take(nh as int) =~= strs_view(headers@));
    s.append("</tr></thead><tbody>");
    let ghost mid = s@;
    let nr = rows.len();
    let mut k: usize = 0;
    while k < nr
        invariant
            nr == rows@.len(),
            k <= nr,
            s@ == mid + table_rows(rows_view(rows@).take(k as int)),
        decreases nr - k,
    {
        s.append("<tr>");
        let ghost row_start = s@;
        let row = &rows[k];
        let nc = row.len();
        let mut c: usize = 0;
        while c < nc
            invariant
                nc == row@.len(),
                c <= nc,
                k < nr,
                nr == rows@.len(),
                row == rows@[k as int],
                s@ == row_start + row_cells(rows_view(rows@)[k as int].take(c as int)),
            decreases nc - c,
        {
            s.append("<td>");
            s.append(row[c].as_str());
            s.append("</td>");
            proof {
                let cells = rows_view(rows@)[k as int];
                assert(cells.take(c + 1).drop_last() =~= cells.take(c as int));
                assert(cells.take(c + 1).last() == row@[c as int]@);
                assert(s@ =~= row_start + row_cells(cells.take(c + 1)));
            }
            c = c + 1;
        }
        proof {
            let cells = rows_view(rows@)[k as int];
            assert(cells.take(nc as int) =~= cells);
        }
        s.append("</tr>");
        proof {
            let v = rows_view(rows@);
            assert(v.take(k + 1).drop_last() =~= v.take(k as int));
            assert(v.take(k + 1).last() == v[k as int]);
            assert(s@ =~= mid + table_rows(v.take(k + 1)));
        }
        k = k + 1;
    }
    assert(rows_view(rows@).take(nr as int) =~= rows_view(rows@));
    s.append("</tbody></table>");
    assert(s@ =~= table_text(strs_view(headers@), rows_view(rows@)));
    s
}

/// Position at which a stable insertion puts `x` into `s`: after every
/// element that `x` does not have to precede.
pub open spec fn stable_insert_pos<T>(s: Seq<T>, x: T, before: spec_fn(T, T) -> bool) -> int
    decreases s.len(),
{
    if s.len() == 0 {
        0
    } else if before(x, s.last()) {
        stable_insert_pos(s.drop_last(), x, before)
    } else {
        s.len() as int
    }
}

/// `s` ordered by `before`, elements that neither precedes keeping their
/// relative order.
pub open spec fn stable_sort<T>(s: Seq<T>, before: spec_fn(T, T) -> bool) -> Seq<T>
    decreases s.len(),
{
    if s.len() == 0 {
        s
    } else {
        let t = stable_sort(s.drop_last(), before);
        t.insert(stable_insert_pos(t, s.last(), before), s.last())
    }
}

/// At most the first five elements.
pub open spec fn first_five<T>(s: Seq<T>) -> Seq<T> {
    if s.len() <= 5 {
        s
    } else {
        s.take(5)
    }
}

/// Usage `a` is a strictly larger percentage than usage `b`.
pub open spec fn usage_above(a: UsageRatio, b: UsageRatio) -> bool {
    ratio_num(a) * ratio_den(b) > ratio_num(b) * ratio_den(a)
}

/// Whether usage `a` is a strictly larger percentage than usage `b`.
pub fn is_usage_above(a: UsageRatio, b: UsageRatio) -> (r: bool)
    ensures
        r == usage_above(a, b),
{
    if a.total == 0 {
        false
    } else if b.total == 0 {
        a.used > 0
    } else {
        assert(a.used as int * b.total as int <= 0xffff_ffff_ffff_ffffint * 0xffff_ffff_ffff_ffffint)
            by (nonlinear_arith)
            requires
                a.used <= 0xffff_ffff_ffff_ffffu64,
                b.total <= 0xffff_ffff_ffff_ffffu64,
        ;
        assert(b.used as int * a.total as int <= 0xffff_ffff_ffff_ffffint * 0xffff_ffff_ffff_ffffint)
            by (nonlinear_arith)
            requires
                b.used <= 0xffff_ffff_ffff_ffffu64,
                a.total <= 0xffff_ffff_ffff_ffffu64,
        ;
        let lhs: u128 = a.used as u128 * b.total as u128;
        let rhs: u128 = b.used as u128 * a.total as u128;
        proof {
            let x = a.used as int;
            let y = b.total as int;
            let z = b.used as int;
            let w = a.total as int;
            assert((x * 10000) * y > (z * 10000) * w <==> x * y > z * w) by (nonlinear_arith);
        }
        lhs > rhs
    }
}

/// Disk `a` is strictly fuller than disk `b`.
pub open spec fn usage_order(disks: Seq<DiskInfo>) -> spec_fn(usize, usize) -> bool {
    |a: usize, b: usize| usage_above(used_of(disks[a as int]), used_of(disks[b as int]))
}

/// Positions of the disks, fullest first; equally full disks keep their order.
pub open spec fn ranked_by_usage(disks: Seq<DiskInfo>) -> Seq<usize> {
    stable_sort(Seq::new(disks.len(), |i: int| i as usize), usage_order(disks))
}

fn rank_by_usage(disks: &[DiskInfo]) -> (r: Vec<usize>)
    ensures
        r@ == ranked_by_usage(disks@),
        forall|j: int| 0 <= j < r@.len() ==> #[trigger] r@[j] < disks@.len(),
{
    let n = disks.len();
    let ghost all = Seq::new(disks@.len(), |i: int| i as usize);
    let mut r: Vec<usize> = Vec::new();
    let mut i: usize = 0;
    assert(all.take(0) =~= Seq::<usize>::empty());
    while i < n
        invariant
            n == disks@.len(),
            i <= n,
            all == Seq::new(disks@.len(), |i: int| i as usize),
            r@ == stable_sort(all.take(i as int), usage_order(disks@)),
            forall|j: int| 0 <= j < r@.len() ==> #[trigger] r@[j] < n,
        decreases n - i,
    {
        let ghost before = r@;
        let mut j = r.len();
        assert(r@.take(j as int) =~= r@);
        while j > 0 && is_usage_above(disks[i].used_ratio(), disks[r[j - 1]].used_ratio())
            invariant
                j <= r@.len(),
                r@ == before,
                i < n,
                n == disks@.len(),
                forall|q: int| 0 <= q < r@.len() ==> #[trigger] r@[q] < n,
                stable_insert_pos(r@, i, usage_order(disks@)) == stable_insert_pos(
                    r@.take(j as int),
                    i,
                    usage_order(disks@),
                ),
            decreases j,
        {
            assert(r@.take(j as int).drop_last() =~= r@.take(j - 1));
            assert(r@.take(j as int).last() == r@[j - 1]);
            j = j - 1;
        }
        proof {
            if j > 0 {
                assert(r@.take(j as int).last() == r@[j - 1]);
            }
            assert(all.take(i + 1).drop_last() =~= all.take(i as int));
            assert(all.take(i + 1).last() == i);
        }
        r.insert(j, i);
        proof {
            assert forall|q: int| 0 <= q < r@.len() implies #[trigger] r@[q] < n by {
                if q < j {
                    assert(r@[q] == before[q]);
                } else if q > j {
                    assert(r@[q] == before[q - 1]);
                }
            }
        }
        i = i + 1;
    }
    assert(all.take(n as int) =~= all);
    r
}

/// A growth of the last day, with the position of its disk.
pub open spec fn growth_candidates(
    disks: Seq<DiskInfo>,
    trends: Map<Seq<char>, TrendInfo>,
    n: nat,
) -> Seq<(usize, i64)>
    decreases n,
{
    if n == 0 {
        Seq::empty()
    } else {
        let prev = growth_candidates(disks, trends, (n - 1) as nat);
        let k = mount_key_text(disks[n - 1]);
        if trends.contains_key(k) && trends[k].growth_24h is Some && trends[k].growth_24h->0 > 0 {
            prev.push(((n - 1) as usize, trends[k].growth_24h->0))
        } else {
            prev
        }
    }
}

/// A fill estimate, with the position of its disk.
pub open spec fn fill_candidates(
    disks: Seq<DiskInfo>,
    trends: Map<Seq<char>, TrendInfo>,
    n: nat,
) -> Seq<(usize, i64)>
    decreases n,
{
    if n == 0 {
        Seq::empty()
    } else {
        let prev = fill_candidates(disks, trends, (n - 1) as nat);
        let k = mount_key_text(disks[n - 1]);
        if trends.contains_key(k) && trends[k].time_to_full_seconds is Some {
            prev.push(((n - 1) as usize, trends[k].time_to_full_seconds->0))
        } else {
            prev
        }
    }
}

/// Larger value first.
pub open spec fn larger_first() -> spec_fn((usize, i64), (usize, i64)) -> bool {
    |a: (usize, i64), b: (usize, i64)| a.1 > b.1
}

/// Smaller value first.
pub open spec fn smaller_first() -> spec_fn((usize, i64), (usize, i64)) -> bool {
    |a: (usize, i64), b: (usize, i64)| a.1 < b.1
}

fn precedes(a: i64, b: i64, larger: bool) -> (r: bool)
    ensures
        r == if larger {
            a > b
        } else {
            a < b
        },
{
    if larger {
        a > b
    } else {
        a < b
    }
}

fn insert_by_value(v: &mut Vec<(usize, i64)>, x: (usize, i64), larger: bool)
    ensures
        final(v)@ == old(v)@.insert(
            stable_insert_pos(
                old(v)@,
                x,
                if larger {
                    larger_first()
                } else {
                    smaller_first()
                },
            ),
            x,
        ),
{
    let ghost ord = if larger {
        larger_first()
    } else {
        smaller_first()
    };
    let mut j = v.len();
    assert(v@.take(j as int) =~= v@);
    while j > 0 && precedes(x.1, v[j - 1].1, larger)
        invariant
            j <= v@.len(),
            v@ == old(v)@,
            ord == if larger {
                larger_first()
            } else {
                smaller_first()
            },
            stable_insert_pos(v@, x, ord) == stable_insert_pos(v@.take(j as int), x, ord),
        decreases j,
    {
        assert(v@.take(j as int).drop_last() =~= v@.take(j - 1));
        assert(v@.take(j as int).last() == v@[j - 1]);
        j = j - 1;
    }
    proof {
        if j > 0 {
            assert(v@.take(j as int).last() == v@[j - 1]);
        }
    }
    v.insert(j, x);
}

fn sort_by_value(v: &Vec<(usize, i64)>, larger: bool) -> (r: Vec<(usize, i64)>)
    ensures
        r@ == stable_sort(
            v@,
            if larger {
                larger_first()
            } else {
                smaller_first()
            },
        ),
{
    let ghost ord = if larger {
        larger_first()
    } else {
        smaller_first()
    };
    let mut r: Vec<(usize, i64)> = Vec::new();
    let n = v.len();
    let mut i: usize = 0;
    assert(v@.take(0) =~= Seq::<(usize, i64)>::empty());
    while i < n
        invariant
            n == v@.len(),
            i <= n,
            ord == if larger {
                larger_first()
            } else {
                smaller_first()
            },
            r@ == stable_sort(v@.take(i as int), ord),
        decreases n - i,
    {
        assert(v@.take(i + 1).drop_last() =~= v@.take(i as int));
        assert(v@.take(i + 1).last() == v@[i as int]);
        insert_by_value(&mut r, v[i], larger);
        i = i + 1;
    }
    assert(v@.take(n as int) =~= v@);
    r
}

fn collect_candidates(disks: &[DiskInfo], trends: &KeyedMap<TrendInfo>, growth: bool) -> (r: Vec<
    (usize, i64),
>)
    requires
        trends.wf(),
    ensures
        growth ==> r@ == growth_candidates(disks@, trends@, disks@.len()),
        !growth ==> r@ == fill_candidates(disks@, trends@, disks@.len()),
        forall|j: int| 0 <= j < r@.len() ==> (#[trigger] r@[j]).0 < disks@.len(),
{
    let mut r: Vec<(usize, i64)> = Vec::new();
    let n = disks.len();
    let mut i: usize = 0;
    while i < n
        invariant
            n == disks@.len(),
            i <= n,
            trends.wf(),
            growth ==> r@ == growth_candidates(disks@, trends@, i as nat),
            !growth ==> r@ == fill_candidates(disks@, trends@, i as nat),
            forall|j: int| 0 <= j < r@.len() ==> (#[trigger] r@[j]).0 < i,
        decreases n - i,
    {
        let key = mount_key(&disks[i]);
        match trends.get(key.as_str()) {
            Some(t) => {
                if growth {
                    match t.growth_24h {
                        Some(g) => {
                            if g > 0 {
                                r.push((i, g));
                            }
                        },
                        None => {},
                    }
                } else {
                    match t.time_to_full_seconds {
                        Some(sec) => {
                            r.push((i, sec));
                        },
                        None => {},
                    }
                }
            },
            None => {},
        }
        i = i + 1;
    }
    r
}

/// Row of the fullest mount points: mount point, usage, available space, severity.
pub open spec fn occupied_row(d: DiskInfo, th: AlertThresholds) -> Seq<Seq<char>> {
    seq![
        escape_text(d.mount_point@),
        percent_text(used_of(d)) + "%"@,
        gb_text(d.available_space as nat),
        severity_html_text(disk_severity(d, th)),
    ]
}

/// Rows of the (at most) five fullest mount points.
pub open spec fn occupied_rows(disks: Seq<DiskInfo>, th: AlertThresholds) -> Seq<Seq<Seq<char>>> {
    let order = first_five(ranked_by_usage(disks));
    Seq::new(order.len(), |j: int| occupied_row(disks[order[j] as int], th))
}

/// Row of the largest growths: mount point, growth of the day, growth of
/// the week, whether abnormal.
pub open spec fn growth_row(d: DiskInfo, t: TrendInfo, g: i64) -> Seq<Seq<char>> {
    seq![
        escape_text(d.mount_point@),
        growth_text(Some(g)),
        growth_text(t.growth_7d),
        if t.abnormal_growth {
            "Da"@
        } else {
            "Nu"@
        },
    ]
}

/// Rows of the (at most) five largest positive growths of the last day.
pub open spec fn growth_rows(disks: Seq<DiskInfo>, trends: Map<Seq<char>, TrendInfo>) -> Seq<
    Seq<Seq<char>>,
> {
    let order = first_five(
        stable_sort(growth_candidates(disks, trends, disks.len()), larger_first()),
    );
    Seq::new(
        order.len(),
        |j: int|
            growth_row(
                disks[order[j].0 as int],
                trends[mount_key_text(disks[order[j].0 as int])],
                order[j].1,
            ),
    )
}

/// Row of the nearest fill estimates: mount point, estimate, available
/// space, severity.
pub open spec fn fill_row(d: DiskInfo, seconds: i64, th: AlertThresholds) -> Seq<Seq<char>> {
    seq![
        escape_text(d.mount_point@),
        time_to_full_text(Some(seconds)),
        gb_text(d.available_space as nat),
        severity_html_text(disk_severity(d, th)),
    ]
}

/// Rows of the (at most) five nearest fill estimates.
pub open spec fn fill_rows(
    disks: Seq<DiskInfo>,
    trends: Map<Seq<char>, TrendInfo>,
    th: AlertThresholds,
) -> Seq<Seq<Seq<char>>> {
    let order = first_five(stable_sort(fill_candidates(disks, trends, disks.len()), smaller_first()));
    Seq::new(order.len(), |j: int| fill_row(disks[order[j].0 as int], order[j].1, th))
}

proof fn lemma_stable_insert_pos_bounds<T>(s: Seq<T>, x: T, before: spec_fn(T, T) -> bool)
    ensures
        0 <= stable_insert_pos(s, x, before) <= s.len(),
    decreases s.len(),
{
    if s.len() > 0 && before(x, s.last()) {
        lemma_stable_insert_pos_bounds(s.drop_last(), x, before);
    }
}

/// A stable sort keeps the same elements, as many times each.
pub proof fn law_stable_sort_permutes<T>(s: Seq<T>, before: spec_fn(T, T) -> bool)
    ensures
        stable_sort(s, before).to_multiset() == s.to_multiset(),
        stable_sort(s, before).len() == s.len(),
    decreases s.len(),
{
    broadcast use vstd::seq_lib::group_to_multiset_ensures;

    if s.len() > 0 {
        let t = stable_sort(s.drop_last(), before);
        let x = s.last();
        law_stable_sort_permutes(s.drop_last(), before);
        lemma_stable_insert_pos_bounds(t, x, before);
        let p = stable_insert_pos(t, x, before);
        let r = t.insert(p, x);
        assert(r.remove(p) =~= t);
        assert(r[p] == x);
        assert(r.contains(x));
        assert(r.to_multiset() =~= t.to_multiset().insert(x));
        assert(s =~= s.drop_last().push(x));
        assert(s.to_multiset() =~= s.drop_last().to_multiset().insert(x));
    }
}

/// `before` is a strict weak order: never both ways, and "not before" is
/// transitive.
pub open spec fn strict_weak<T>(before: spec_fn(T, T) -> bool) -> bool {
    &&& forall|a: T, b: T| #[trigger] before(a, b) ==> !before(b, a)
    &&& forall|a: T, b: T, c: T|
        #![trigger before(a, b), before(b, c)]
        !before(a, b) && !before(b, c) ==> !before(a, c)
}

/// `s` is ordered by `before`, and elements that neither precedes come in
/// increasing `key`.
pub open spec fn sorted_stably<T>(s: Seq<T>, before: spec_fn(T, T) -> bool, key: spec_fn(T) -> int) -> bool {
    forall|i: int, j: int|
        #![trigger s[i], s[j]]
        0 <= i < j < s.len() ==> !before(s[j], s[i]) && (!before(s[i], s[j]) ==> key(s[i]) < key(
            s[j],
        ))
}

proof fn lemma_stable_insert_pos_scan<T>(s: Seq<T>, x: T, before: spec_fn(T, T) -> bool)
    ensures
        forall|k: int|
            stable_insert_pos(s, x, before) <= k < s.len() ==> before(x, #[trigger] s[k]),
        stable_insert_pos(s, x, before) > 0 ==> !before(x, s[stable_insert_pos(s, x, before) - 1]),
    decreases s.len(),
{
    if s.len() > 0 && before(x, s.last()) {
        lemma_stable_insert_pos_scan(s.drop_last(), x, before);
        lemma_stable_insert_pos_bounds(s.drop_last(), x, before);
        let p = stable_insert_pos(s.drop_last(), x, before);
        assert forall|k: int| p <= k < s.len() implies before(x, #[trigger] s[k]) by {
            if k < s.len() - 1 {
                assert(s[k] == s.drop_last()[k]);
            }
        }
        if p > 0 {
            assert(s[p - 1] == s.drop_last()[p - 1]);
        }
    }
}

/// A stable sort by a strict weak order orders its result, and keeps
/// elements that neither precedes in the order they came in.
pub proof fn law_stable_sort_ordered<T>(
    s: Seq<T>,
    before: spec_fn(T, T) -> bool,
    key: spec_fn(T) -> int,
)
    requires
        strict_weak(before),
        forall|i: int, j: int| #![trigger s[i], s[j]] 0 <= i < j < s.len() ==> key(s[i]) < key(s[j]),
    ensures
        sorted_stably(stable_sort(s, before), before, key),
    decreases s.len(),
{
    if s.len() > 0 {
        let u = s.drop_last();
        let x = s.last();
        assert forall|i: int, j: int| #![trigger u[i], u[j]] 0 <= i < j < u.len() implies key(u[i])
            < key(u[j]) by {
            assert(u[i] == s[i] && u[j] == s[j]);
        }
        law_stable_sort_ordered(u, before, key);
        let t = stable_sort(u, before);
        law_stable_sort_permutes(u, before);
        lemma_stable_insert_pos_bounds(t, x, before);
        lemma_stable_insert_pos_scan(t, x, before);
        let p = stable_insert_pos(t, x, before);
        let r = t.insert(p, x);
        assert(r == stable_sort(s, before));
        assert forall|i: int| 0 <= i < t.len() implies key(#[trigger] t[i]) < key(x) by {
            lemma_sorted_member(u, before, i);
            let k = choose|k: int| 0 <= k < u.len() && u[k] == t[i];
            assert(s[k] == u[k]);
            assert(s[s.len() - 1] == x);
        }
        assert forall|i: int| 0 <= i < p implies !before(x, #[trigger] t[i]) by {
            if i < p - 1 {
                assert(!before(t[p - 1], t[i]));
                assert(!before(x, t[p - 1]) && !before(t[p - 1], t[i]) ==> !before(x, t[i]));
            }
        }
        assert forall|i: int, j: int| #![trigger r[i], r[j]] 0 <= i < j < r.len() implies !before(
            r[j],
            r[i],
        ) && (!before(r[i], r[j]) ==> key(r[i]) < key(r[j])) by {
            if j < p {
                assert(r[i] == t[i] && r[j] == t[j]);
            } else if j == p {
                assert(r[i] == t[i] && r[j] == x);
                assert(key(t[i]) < key(x));
            } else if i < p {
                assert(r[i] == t[i] && r[j] == t[j - 1]);
            } else if i == p {
                assert(r[i] == x && r[j] == t[j - 1]);
                assert(before(x, t[j - 1]));
            } else {
                assert(r[i] == t[i - 1] && r[j] == t[j - 1]);
            }
        }
    }
}

/// Comparing usage is a strict weak order.
pub proof fn lemma_usage_order_strict_weak(disks: Seq<DiskInfo>)
    ensures
        strict_weak(usage_order(disks)),
{
    let f = usage_order(disks);
    assert forall|a: usize, b: usize, c: usize|
        #![trigger f(a, b), f(b, c)]
        !f(a, b) && !f(b, c) implies !f(a, c) by {
        let ra = used_of(disks[a as int]);
        let rb = used_of(disks[b as int]);
        let rc = used_of(disks[c as int]);
        let (xa, da) = (ratio_num(ra), ratio_den(ra));
        let (xb, db) = (ratio_num(rb), ratio_den(rb));
        let (xc, dc) = (ratio_num(rc), ratio_den(rc));
        assert(xa * dc <= xc * da) by (nonlinear_arith)
            requires
                xa * db <= xb * da,
                xb * dc <= xc * db,
                da > 0,
                db > 0,
                dc > 0,
        ;
    }
}

/// The fullest-first ranking puts fuller disks first, and equally full disks
/// in the order they were measured.
pub proof fn law_ranked_by_usage(disks: Seq<DiskInfo>)
    requires
        disks.len() <= usize::MAX,
    ensures
        forall|i: int, j: int|
            #![trigger ranked_by_usage(disks)[i], ranked_by_usage(disks)[j]]
            0 <= i < j < ranked_by_usage(disks).len() ==> !usage_above(
                used_of(disks[ranked_by_usage(disks)[j] as int]),
                used_of(disks[ranked_by_usage(disks)[i] as int]),
            ) && (!usage_above(
                used_of(disks[ranked_by_usage(disks)[i] as int]),
                used_of(disks[ranked_by_usage(disks)[j] as int]),
            ) ==> ranked_by_usage(disks)[i] < ranked_by_usage(disks)[j]),
{
    let all = Seq::new(disks.len(), |i: int| i as usize);
    let key = |i: usize| i as int;
    lemma_usage_order_strict_weak(disks);
    law_stable_sort_ordered(all, usage_order(disks), key);
    let r = ranked_by_usage(disks);
    assert forall|i: int, j: int| #![trigger r[i], r[j]] 0 <= i < j < r.len() implies !usage_above(
        used_of(disks[r[j] as int]),
        used_of(disks[r[i] as int]),
    ) && (!usage_above(used_of(disks[r[i] as int]), used_of(disks[r[j] as int])) ==> r[i] < r[j]) by {
        assert(key(r[i]) == r[i] as int);
        assert(key(r[j]) == r[j] as int);
    }
}

proof fn lemma_sorted_member<T>(s: Seq<T>, before: spec_fn(T, T) -> bool, j: int)
    requires
        0 <= j < stable_sort(s, before).len(),
    ensures
        s.contains(stable_sort(s, before)[j]),
{
    broadcast use vstd::seq_lib::group_to_multiset_ensures;

    law_stable_sort_permutes(s, before);
    let r = stable_sort(s, before);
    assert(r.contains(r[j]));
    assert(r.to_multiset().count(r[j]) > 0);
}

proof fn lemma_growth_candidates(disks: Seq<DiskInfo>, trends: Map<Seq<char>, TrendInfo>, n: nat)
    requires
        n <= disks.len(),
        disks.len() <= usize::MAX,
    ensures
        forall|e: (usize, i64)|
            #[trigger] growth_candidates(disks, trends, n).contains(e) ==> e.0 < n
                && trends.contains_key(mount_key_text(disks[e.0 as int])) && trends[mount_key_text(
                disks[e.0 as int],
            )].growth_24h == Some(e.1),
    decreases n,
{
    if n > 0 {
        lemma_growth_candidates(disks, trends, (n - 1) as nat);
        let prev = growth_candidates(disks, trends, (n - 1) as nat);
        assert forall|e: (usize, i64)| #[trigger] growth_candidates(disks, trends, n).contains(
            e,
        ) implies e.0 < n && trends.contains_key(mount_key_text(disks[e.0 as int]))
            && trends[mount_key_text(disks[e.0 as int])].growth_24h == Some(e.1) by {
            let c = growth_candidates(disks, trends, n);
            let i = choose|i: int| 0 <= i < c.len() && c[i] == e;
            if c.len() > prev.len() && i == prev.len() {
            } else {
                assert(prev[i] == e);
                assert(prev.contains(e));
            }
        }
    }
}

/// `c` is a positive growth of the last day of disk `c.0`, with its value.
pub open spec fn positive_growth(
    disks: Seq<DiskInfo>,
    trends: Map<Seq<char>, TrendInfo>,
    c: (usize, i64),
) -> bool {
    &&& c.0 < disks.len()
    &&& trends.contains_key(mount_key_text(disks[c.0 as int]))
    &&& trends[mount_key_text(disks[c.0 as int])].growth_24h == Some(c.1)
    &&& c.1 > 0
}

proof fn lemma_growth_candidates_exact(
    disks: Seq<DiskInfo>,
    trends: Map<Seq<char>, TrendInfo>,
    n: nat,
)
    requires
        n <= disks.len(),
        disks.len() <= usize::MAX,
    ensures
        forall|k: int|
            0 <= k < growth_candidates(disks, trends, n).len() ==> positive_growth(
                disks,
                trends,
                #[trigger] growth_candidates(disks, trends, n)[k],
            ) && growth_candidates(disks, trends, n)[k].0 < n,
        forall|k1: int, k2: int|
            #![trigger growth_candidates(disks, trends, n)[k1], growth_candidates(disks, trends, n)[k2]]
            0 <= k1 < k2 < growth_candidates(disks, trends, n).len() ==> growth_candidates(
                disks,
                trends,
                n,
            )[k1].0 < growth_candidates(disks, trends, n)[k2].0,
        forall|c: (usize, i64)|
            #[trigger] positive_growth(disks, trends, c) && c.0 < n ==> growth_candidates(
                disks,
                trends,
                n,
            ).contains(c),
    decreases n,
{
    if n > 0 {
        lemma_growth_candidates_exact(disks, trends, (n - 1) as nat);
        let prev = growth_candidates(disks, trends, (n - 1) as nat);
        let cur = growth_candidates(disks, trends, n);
        assert forall|k: int| 0 <= k < cur.len() implies positive_growth(disks, trends, #[trigger] cur[k])
            && cur[k].0 < n by {
            if k < prev.len() {
                assert(cur[k] == prev[k]);
            }
        }
        assert forall|k1: int, k2: int| #![trigger cur[k1], cur[k2]] 0 <= k1 < k2 < cur.len() implies cur[k1].0
            < cur[k2].0 by {
            assert(cur[k1] == prev[k1]);
            if k2 < prev.len() {
                assert(cur[k2] == prev[k2]);
            }
        }
        assert forall|c: (usize, i64)| #[trigger] positive_growth(disks, trends, c) && c.0 < n implies cur.contains(c) by {
            if c.0 < n - 1 {
                let k = choose|k: int| 0 <= k < prev.len() && prev[k] == c;
                assert(cur[k] == c);
            } else {
                assert(cur[cur.len() - 1] == c);
            }
        }
    }
}

/// The table of the largest growths of the last day shows positive growths
/// of the disks, at most five, in non-increasing order; a positive growth
/// left out of the table is no larger than any shown, and one is left out
/// only when five are shown.
pub proof fn law_growth_table(disks: Seq<DiskInfo>, trends: Map<Seq<char>, TrendInfo>)
    requires
        disks.len() <= usize::MAX,
    ensures
        exists|o: Seq<(usize, i64)>|
            {
                &&& growth_rows(disks, trends) == Seq::new(
                    o.len(),
                    |j: int|
                        growth_row(
                            disks[o[j].0 as int],
                            trends[mount_key_text(disks[o[j].0 as int])],
                            o[j].1,
                        ),
                )
                &&& o.len() <= 5
                &&& forall|j: int| 0 <= j < o.len() ==> #[trigger] positive_growth(disks, trends, o[j])
                &&& forall|i: int, j: int|
                    #![trigger o[i], o[j]]
                    0 <= i < j < o.len() ==> o[i].1 >= o[j].1
                &&& forall|c: (usize, i64)|
                    #[trigger] positive_growth(disks, trends, c) && !o.contains(c) ==> o.len() == 5
                        && forall|j: int| 0 <= j < o.len() ==> c.1 <= #[trigger] o[j].1
            },
{
    broadcast use vstd::seq_lib::group_to_multiset_ensures;

    let cands = growth_candidates(disks, trends, disks.len());
    let before = larger_first();
    let key = |c: (usize, i64)| c.0 as int;
    lemma_growth_candidates_exact(disks, trends, disks.len());
    assert forall|a: (usize, i64), b: (usize, i64)| #[trigger] before(a, b) implies !before(b, a) by {}
    assert forall|a: (usize, i64), b: (usize, i64), c: (usize, i64)|
        #![trigger before(a, b), before(b, c)]
        !before(a, b) && !before(b, c) implies !before(a, c) by {}
    assert(strict_weak(before));
    assert forall|i: int, j: int| #![trigger cands[i], cands[j]] 0 <= i < j < cands.len() implies key(
        cands[i],
    ) < key(cands[j]) by {}
    law_stable_sort_ordered(cands, before, key);
    law_stable_sort_permutes(cands, before);
    let sorted = stable_sort(cands, before);
    let o = first_five(sorted);
    assert forall|j: int| 0 <= j < o.len() implies #[trigger] positive_growth(disks, trends, o[j]) by {
        assert(o[j] == sorted[j]);
        lemma_sorted_member(cands, before, j);
        let k = choose|k: int| 0 <= k < cands.len() && cands[k] == sorted[j];
    }
    assert forall|i: int, j: int| #![trigger o[i], o[j]] 0 <= i < j < o.len() implies o[i].1 >= o[j].1 by {
        assert(o[i] == sorted[i] && o[j] == sorted[j]);
        assert(!before(sorted[j], sorted[i]));
    }
    assert forall|c: (usize, i64)| #[trigger] positive_growth(disks, trends, c) && !o.contains(c) implies o.len()
        == 5 && forall|j: int| 0 <= j < o.len() ==> c.1 <= #[trigger] o[j].1 by {
        assert(cands.contains(c));
        assert(cands.to_multiset().count(c) > 0);
        assert(sorted.to_multiset().count(c) > 0);
        assert(sorted.contains(c));
        let k = choose|k: int| 0 <= k < sorted.len() && sorted[k] == c;
        if k < 5 {
            assert(o[k] == c);
            assert(false);
        }
        assert forall|j: int| 0 <= j < o.len() implies c.1 <= #[trigger] o[j].1 by {
            assert(o[j] == sorted[j]);
            assert(!before(sorted[k], sorted[j]));
        }
    }
    assert(growth_rows(disks, trends) =~= Seq::new(
        o.len(),
        |j: int|
            growth_row(disks[o[j].0 as int], trends[mount_key_text(disks[o[j].0 as int])], o[j].1),
    ));
}

/// `c` is the fill estimate of disk `c.0`, with its value in seconds.
pub open spec fn fill_estimate(
    disks: Seq<DiskInfo>,
    trends: Map<Seq<char>, TrendInfo>,
    c: (usize, i64),
) -> bool {
    &&& c.0 < disks.len()
    &&& trends.contains_key(mount_key_text(disks[c.0 as int]))
    &&& trends[mount_key_text(disks[c.0 as int])].time_to_full_seconds == Some(c.1)
}

proof fn lemma_fill_candidates_exact(
    disks: Seq<DiskInfo>,
    trends: Map<Seq<char>, TrendInfo>,
    n: nat,
)
    requires
        n <= disks.len(),
        disks.len() <= usize::MAX,
    ensures
        forall|k: int|
            0 <= k < fill_candidates(disks, trends, n).len() ==> fill_estimate(
                disks,
                trends,
                #[trigger] fill_candidates(disks, trends, n)[k],
            ) && fill_candidates(disks, trends, n)[k].0 < n,
        forall|k1: int, k2: int|
            #![trigger fill_candidates(disks, trends, n)[k1], fill_candidates(disks, trends, n)[k2]]
            0 <= k1 < k2 < fill_candidates(disks, trends, n).len() ==> fill_candidates(
                disks,
                trends,
                n,
            )[k1].0 < fill_candidates(disks, trends, n)[k2].0,
        forall|c: (usize, i64)|
            #[trigger] fill_estimate(disks, trends, c) && c.0 < n ==> fill_candidates(
                disks,
                trends,
                n,
            ).contains(c),
    decreases n,
{
    if n > 0 {
        lemma_fill_candidates_exact(disks, trends, (n - 1) as nat);
        let prev = fill_candidates(disks, trends, (n - 1) as nat);
        let cur = fill_candidates(disks, trends, n);
        assert forall|k: int| 0 <= k < cur.len() implies fill_estimate(disks, trends, #[trigger] cur[k])
            && cur[k].0 < n by {
            if k < prev.len() {
                assert(cur[k] == prev[k]);
            }
        }
        assert forall|k1: int, k2: int| #![trigger cur[k1], cur[k2]] 0 <= k1 < k2 < cur.len() implies cur[k1].0
            < cur[k2].0 by {
            assert(cur[k1] == prev[k1]);
            if k2 < prev.len() {
                assert(cur[k2] == prev[k2]);
            }
        }
        assert forall|c: (usize, i64)| #[trigger] fill_estimate(disks, trends, c) && c.0 < n implies cur.contains(c) by {
            if c.0 < n - 1 {
                let k = choose|k: int| 0 <= k < prev.len() && prev[k] == c;
                assert(cur[k] == c);
            } else {
                assert(cur[cur.len() - 1] == c);
            }
        }
    }
}

/// The table of the nearest fill estimates shows estimates of the disks, at
/// most five, nearest first; an estimate left out of the table is no
/// nearer than any shown, and one is left out only when five are shown.
pub proof fn law_fill_table(
    disks: Seq<DiskInfo>,
    trends: Map<Seq<char>, TrendInfo>,
    th: AlertThresholds,
)
    requires
        disks.len() <= usize::MAX,
    ensures
        exists|o: Seq<(usize, i64)>|
            {
                &&& fill_rows(disks, trends, th) == Seq::new(
                    o.len(),
                    |j: int| fill_row(disks[o[j].0 as int], o[j].1, th),
                )
                &&& o.len() <= 5
                &&& forall|j: int| 0 <= j < o.len() ==> #[trigger] fill_estimate(disks, trends, o[j])
                &&& forall|i: int, j: int|
                    #![trigger o[i], o[j]]
                    0 <= i < j < o.len() ==> o[i].1 <= o[j].1
                &&& forall|c: (usize, i64)|
                    #[trigger] fill_estimate(disks, trends, c) && !o.contains(c) ==> o.len() == 5
                        && forall|j: int| 0 <= j < o.len() ==> c.1 >= #[trigger] o[j].1
            },
{
    broadcast use vstd::seq_lib::group_to_multiset_ensures;

    let cands = fill_candidates(disks, trends, disks.len());
    let before = smaller_first();
    let key = |c: (usize, i64)| c.0 as int;
    lemma_fill_candidates_exact(disks, trends, disks.len());
    assert forall|a: (usize, i64), b: (usize, i64)| #[trigger] before(a, b) implies !before(b, a) by {}
    assert forall|a: (usize, i64), b: (usize, i64), c: (usize, i64)|
        #![trigger before(a, b), before(b, c)]
        !before(a, b) && !before(b, c) implies !before(a, c) by {}
    assert(strict_weak(before));
    assert forall|i: int, j: int| #![trigger cands[i], cands[j]] 0 <= i < j < cands.len() implies key(
        cands[i],
    ) < key(cands[j]) by {}
    law_stable_sort_ordered(cands, before, key);
    law_stable_sort_permutes(cands, before);
    let sorted = stable_sort(cands, before);
    let o = first_five(sorted);
    assert forall|j: int| 0 <= j < o.len() implies #[trigger] fill_estimate(disks, trends, o[j]) by {
        assert(o[j] == sorted[j]);
        lemma_sorted_member(cands, before, j);
        let k = choose|k: int| 0 <= k < cands.len() && cands[k] == sorted[j];
    }
    assert forall|i: int, j: int| #![trigger o[i], o[j]] 0 <= i < j < o.len() implies o[i].1 <= o[j].1 by {
        assert(o[i] == sorted[i] && o[j] == sorted[j]);
        assert(!before(sorted[j], sorted[i]));
    }
    assert forall|c: (usize, i64)| #[trigger] fill_estimate(disks, trends, c) && !o.contains(c) implies o.len()
        == 5 && forall|j: int| 0 <= j < o.len() ==> c.1 >= #[trigger] o[j].1 by {
        assert(cands.contains(c));
        assert(cands.to_multiset().count(c) > 0);
        assert(sorted.to_multiset().count(c) > 0);
        assert(sorted.contains(c));
        let k = choose|k: int| 0 <= k < sorted.len() && sorted[k] == c;
        if k < 5 {
            assert(o[k] == c);
            assert(false);
        }
        assert forall|j: int| 0 <= j < o.len() implies c.1 >= #[trigger] o[j].1 by {
            assert(o[j] == sorted[j]);
            assert(!before(sorted[k], sorted[j]));
        }
    }
    assert(fill_rows(disks, trends, th) =~= Seq::new(
        o.len(),
        |j: int| fill_row(disks[o[j].0 as int], o[j].1, th),
    ));
}

proof fn lemma_fill_candidates(disks: Seq<DiskInfo>, trends: Map<Seq<char>, TrendInfo>, n: nat)
    requires
        n <= disks.len(),
        disks.len() <= usize::MAX,
    ensures
        forall|e: (usize, i64)|
            #[trigger] fill_candidates(disks, trends, n).contains(e) ==> e.0 < n
                && trends.contains_key(mount_key_text(disks[e.0 as int])) && trends[mount_key_text(
                disks[e.0 as int],
            )].time_to_full_seconds == Some(e.1),
    decreases n,
{
    if n > 0 {
        lemma_fill_candidates(disks, trends, (n - 1) as nat);
        let prev = fill_candidates(disks, trends, (n - 1) as nat);
        assert forall|e: (usize, i64)| #[trigger] fill_candidates(disks, trends, n).contains(
            e,
        ) implies e.0 < n && trends.contains_key(mount_key_text(disks[e.0 as int]))
            && trends[mount_key_text(disks[e.0 as int])].time_to_full_seconds == Some(e.1) by {
            let c = fill_candidates(disks, trends, n);
            let i = choose|i: int| 0 <= i < c.len() && c[i] == e;
            if c.len() > prev.len() && i == prev.len() {
            } else {
                assert(prev[i] == e);
                assert(prev.contains(e));
            }
        }
    }
}

proof fn lemma_rows_push(rows: Seq<Vec<String>>, row: Vec<String>)
    ensures
        rows_view(rows.push(row)) == rows_view(rows).push(
            Seq::new(row@.len(), |j: int| row@[j]@),
        ),
{
    let l = rows_view(rows.push(row));
    let r = rows_view(rows).push(Seq::new(row@.len(), |j: int| row@[j]@));
    assert forall|i: int| 0 <= i < l.len() implies l[i] == r[i] by {
        if i < rows.len() {
            assert(l[i] =~= r[i]);
        } else {
            assert(l[i] =~= r[i]);
        }
    }
    assert(l =~= r);
}

fn four_cells(a: String, b: String, c: String, d: String) -> (r: Vec<String>)
    ensures
        Seq::new(r@.len(), |j: int| r@[j]@) == seq![a@, b@, c@, d@],
{
    let mut r: Vec<String> = Vec::new();
    r.push(a);
    r.push(b);
    r.push(c);
    r.push(d);
    assert(Seq::new(r@.len(), |j: int| r@[j]@) =~= seq![a@, b@, c@, d@]);
    r
}

fn occupied_table_rows(disks: &[DiskInfo], thresholds: AlertThresholds) -> (r: Vec<Vec<String>>)
    ensures
        rows_view(r@) == occupied_rows(disks@, thresholds),
{
    let order = rank_by_usage(disks);
    let count = if order.len() <= 5 {
        order.len()
    } else {
        5
    };
    let ghost top = first_five(ranked_by_usage(disks@));
    let mut rows: Vec<Vec<String>> = Vec::new();
    let mut j: usize = 0;
    assert(rows_view(rows@) =~= occupied_rows(disks@, thresholds).take(0));
    while j < count
        invariant
            count == top.len(),
            j <= count,
            order@ == ranked_by_usage(disks@),
            top == first_five(ranked_by_usage(disks@)),
            forall|q: int| 0 <= q < order@.len() ==> #[trigger] order@[q] < disks@.len(),
            rows_view(rows@) == occupied_rows(disks@, thresholds).take(j as int),
        decreases count - j,
    {
        assert(top[j as int] == order@[j as int]);
        let d = &disks[order[j]];
        let mount = escape_html(d.mount_point.as_str());
        let mut pct = String::new();
        push_percent(&mut pct, d.used_ratio());
        pct.append("%");
        let mut avail = String::new();
        push_gb(&mut avail, d.available_space);
        let sev = severity_html(severity_for_percent(d.used_ratio(), thresholds));
        let row = four_cells(mount, pct, avail, sev);
        proof {
            lemma_rows_push(rows@, row);
            assert(avail@ =~= gb_text(d.available_space as nat));
        }
        rows.push(row);
        proof {
            let want = occupied_rows(disks@, thresholds);
            assert(want[j as int] =~= occupied_row(*d, thresholds));
            assert(want.take(j + 1) =~= want.take(j as int).push(want[j as int]));
        }
        j = j + 1;
    }
    assert(occupied_rows(disks@, thresholds).take(count as int) =~= occupied_rows(disks@, thresholds));
    rows
}

fn growth_table_rows(disks: &[DiskInfo], trends: &KeyedMap<TrendInfo>) -> (r: Vec<Vec<String>>)
    requires
        trends.wf(),
    ensures
        rows_view(r@) == growth_rows(disks@, trends@),
{
    let candidates = collect_candidates(disks, trends, true);
    let order = sort_by_value(&candidates, true);
    let ghost cands = growth_candidates(disks@, trends@, disks@.len());
    let nd = disks.len();
    proof {
        assert(disks@.len() == nd);
        lemma_growth_candidates(disks@, trends@, disks@.len());
        law_stable_sort_permutes(cands, larger_first());
    }
    let count = if order.len() <= 5 {
        order.len()
    } else {
        5
    };
    let ghost top = first_five(stable_sort(cands, larger_first()));
    let mut rows: Vec<Vec<String>> = Vec::new();
    let mut j: usize = 0;
    assert(rows_view(rows@) =~= growth_rows(disks@, trends@).take(0));
    while j < count
        invariant
            count == top.len(),
            j <= count,
            trends.wf(),
            cands == growth_candidates(disks@, trends@, disks@.len()),
            order@ == stable_sort(cands, larger_first()),
            top == first_five(stable_sort(cands, larger_first())),
            forall|e: (usize, i64)|
                #[trigger] cands.contains(e) ==> e.0 < disks@.len() && trends@.contains_key(
                    mount_key_text(disks@[e.0 as int]),
                ) && trends@[mount_key_text(disks@[e.0 as int])].growth_24h == Some(e.1),
            rows_view(rows@) == growth_rows(disks@, trends@).take(j as int),
        decreases count - j,
    {
        let (idx, g) = order[j];
        proof {
            lemma_sorted_member(cands, larger_first(), j as int);
            assert(cands.contains(order@[j as int]));
        }
        let d = &disks[idx];
        let key = mount_key(d);
        let t: TrendInfo = match trends.get(key.as_str()) {
            Some(t) => *t,
            None => {
                assert(false);
                return rows;
            },
        };
        let mount = escape_html(d.mount_point.as_str());
        let day = format_growth(Some(g));
        let week = format_growth(t.growth_7d);
        let abnormal = if t.abnormal_growth {
            String::from_str("Da")
        } else {
            String::from_str("Nu")
        };
        let row = four_cells(mount, day, week, abnormal);
        proof {
            lemma_rows_push(rows@, row);
        }
        rows.push(row);
        proof {
            let want = growth_rows(disks@, trends@);
            assert(top[j as int] == order@[j as int]);
            assert(want[j as int] =~= growth_row(*d, t, g));
            assert(want.take(j + 1) =~= want.take(j as int).push(want[j as int]));
        }
        j = j + 1;
    }
    assert(growth_rows(disks@, trends@).take(count as int) =~= growth_rows(disks@, trends@));
    rows
}

fn fill_table_rows(
    disks: &[DiskInfo],
    trends: &KeyedMap<TrendInfo>,
    thresholds: AlertThresholds,
) -> (r: Vec<Vec<String>>)
    requires
        trends.wf(),
    ensures
        rows_view(r@) == fill_rows(disks@, trends@, thresholds),
{
    let candidates = collect_candidates(disks, trends, false);
    let order = sort_by_value(&candidates, false);
    let ghost cands = fill_candidates(disks@, trends@, disks@.len());
    let nd = disks.len();
    proof {
        assert(disks@.len() == nd);
        lemma_fill_candidates(disks@, trends@, disks@.len());
        law_stable_sort_permutes(cands, smaller_first());
    }
    let count = if order.len() <= 5 {
        order.len()
    } else {
        5
    };
    let ghost top = first_five(stable_sort(cands, smaller_first()));
    let mut rows: Vec<Vec<String>> = Vec::new();
    let mut j: usize = 0;
    assert(rows_view(rows@) =~= fill_rows(disks@, trends@, thresholds).take(0));
    while j < count
        invariant
            count == top.len(),
            j <= count,
            trends.wf(),
            cands == fill_candidates(disks@, trends@, disks@.len()),
            order@ == stable_sort(cands, smaller_first()),
            top == first_five(stable_sort(cands, smaller_first())),
            forall|e: (usize, i64)|
                #[trigger] cands.contains(e) ==> e.0 < disks@.len() && trends@.contains_key(
                    mount_key_text(disks@[e.0 as int]),
                ) && trends@[mount_key_text(disks@[e.0 as int])].time_to_full_seconds == Some(e.1),
            rows_view(rows@) == fill_rows(disks@, trends@, thresholds).take(j as int),
        decreases count - j,
    {
        let (idx, sec) = order[j];
        proof {
            lemma_sorted_member(cands, smaller_first(), j as int);
            assert(cands.contains(order@[j as int]));
        }
        let d = &disks[idx];
        let mount = escape_html(d.mount_point.as_str());
        let estimate = format_time_to_full(Some(sec));
        let mut avail = String::new();
        push_gb(&mut avail, d.available_space);
        let sev = severity_html(severity_for_percent(d.used_ratio(), thresholds));
        let row = four_cells(mount, estimate, avail, sev);
        proof {
            lemma_rows_push(rows@, row);
            assert(avail@ =~= gb_text(d.available_space as nat));
        }
        rows.push(row);
        proof {
            let want = fill_rows(disks@, trends@, thresholds);
            assert(top[j as int] == order@[j as int]);
            assert(want[j as int] =~= fill_row(*d, sec, thresholds));
            assert(want.take(j + 1) =~= want.take(j as int).push(want[j as int]));
        }
        j = j + 1;
    }
    assert(fill_rows(disks@, trends@, thresholds).take(count as int) =~= fill_rows(
        disks@,
        trends@,
        thresholds,
    ));
    rows
}

/// Some disk is estimated to be full within seven days.
pub open spec fn soon_full(disks: Seq<DiskInfo>, trends: Map<Seq<char>, TrendInfo>) -> bool {
    exists|i: int|
        0 <= i < disks.len() && {
            let k = mount_key_text(#[trigger] disks[i]);
            &&& trends.contains_key(k)
            &&& trends[k].time_to_full_seconds is Some
            &&& trends[k].time_to_full_seconds->0 <= 7 * 86_400
        }
}

fn has_soon_full(disks: &[DiskInfo], trends: &KeyedMap<TrendInfo>) -> (r: bool)
    requires
        trends.wf(),
    ensures
        r == soon_full(disks@, trends@),
{
    let n = disks.len();
    let mut i: usize = 0;
    while i < n
        invariant
            n == disks@.len(),
            i <= n,
            trends.wf(),
            forall|j: int|
                0 <= j < i ==> !{
                    let k = mount_key_text(#[trigger] disks@[j]);
                    &&& trends@.contains_key(k)
                    &&& trends@[k].time_to_full_seconds is Some
                    &&& trends@[k].time_to_full_seconds->0 <= 7 * 86_400
                },
        decreases n - i,
    {
        let key = mount_key(&disks[i]);
        match trends.get(key.as_str()) {
            Some(t) => match t.time_to_full_seconds {
                Some(sec) => {
                    if sec <= 7 * 86_400 {
                        return true;
                    }
                },
                None => {},
            },
            None => {},
        }
        i = i + 1;
    }
    false
}

/// Recommendation for disks at EMERGENCY.
pub open spec fn advice_emergency() -> Seq<char> {
    "Interventie imediata pe mount point-urile EMERGENCY: curatare, extindere volum sau mutare date."@
}

/// Recommendation for disks at CRITICAL.
pub open spec fn advice_critical() -> Seq<char> {
    "Plan de remediere in aceeasi zi pentru mount point-urile CRITICAL."@
}

/// Recommendation for disks at WARNING.
pub open spec fn advice_warning() -> Seq<char> {
    "Urmarire si verificare cauze pentru mount point-urile WARNING."@
}

/// Recommendation for abnormal growth.
pub open spec fn advice_abnormal() -> Seq<char> {
    "Investigati procesele/logurile care au produs crestere anormala in ultimele 24h."@
}

/// Recommendation for disks that fill within a week.
pub open spec fn advice_soon_full() -> Seq<char> {
    "Prioritizati mount point-urile cu estimare de umplere sub 7 zile."@
}

/// Recommendation when nothing is urgent.
pub open spec fn advice_none() -> Seq<char> {
    "Nu sunt actiuni urgente; continuati monitorizarea zilnica."@
}

/// `s`, followed by `x` when `cond` holds.
pub open spec fn push_if(s: Seq<Seq<char>>, cond: bool, x: Seq<char>) -> Seq<Seq<char>> {
    if cond {
        s.push(x)
    } else {
        s
    }
}

/// Recommendations for the disks, in order of urgency; when none applies,
/// the advice to keep monitoring.
pub open spec fn recommendations(
    disks: Seq<DiskInfo>,
    th: AlertThresholds,
    trends: Map<Seq<char>, TrendInfo>,
) -> Seq<Seq<char>> {
    let items = push_if(
        push_if(
            push_if(
                push_if(
                    push_if(
                        Seq::empty(),
                        severity_count(disks, th, Some(AlertSeverity::Emergency)) > 0,
                        advice_emergency(),
                    ),
                    severity_count(disks, th, Some(AlertSeverity::Critical)) > 0,
                    advice_critical(),
                ),
                severity_count(disks, th, Some(AlertSeverity::Warning)) > 0,
                advice_warning(),
            ),
            any_abnormal(trends),
            advice_abnormal(),
        ),
        soon_full(disks, trends),
        advice_soon_full(),
    );
    if items.len() == 0 {
        seq![advice_none()]
    } else {
        items
    }
}

/// The recommendations hold the advice for EMERGENCY, CRITICAL and WARNING
/// disks each exactly when some disk is at that severity, whatever the
/// other disks' severities.
pub proof fn law_recommendations(
    disks: Seq<DiskInfo>,
    th: AlertThresholds,
    trends: Map<Seq<char>, TrendInfo>,
)
    ensures
        recommendations(disks, th, trends).contains(advice_warning()) <==> severity_count(
            disks,
            th,
            Some(AlertSeverity::Warning),
        ) > 0,
        recommendations(disks, th, trends).contains(advice_critical()) <==> severity_count(
            disks,
            th,
            Some(AlertSeverity::Critical),
        ) > 0,
        recommendations(disks, th, trends).contains(advice_emergency()) <==> severity_count(
            disks,
            th,
            Some(AlertSeverity::Emergency),
        ) > 0,
{
    reveal_strlit("Interventie imediata pe mount point-urile EMERGENCY: curatare, extindere volum sau mutare date.");
    reveal_strlit("Plan de remediere in aceeasi zi pentru mount point-urile CRITICAL.");
    reveal_strlit("Urmarire si verificare cauze pentru mount point-urile WARNING.");
    reveal_strlit("Investigati procesele/logurile care au produs crestere anormala in ultimele 24h.");
    reveal_strlit("Prioritizati mount point-urile cu estimare de umplere sub 7 zile.");
    reveal_strlit("Nu sunt actiuni urgente; continuati monitorizarea zilnica.");
    let all = seq![
        advice_emergency(),
        advice_critical(),
        advice_warning(),
        advice_abnormal(),
        advice_soon_full(),
        advice_none(),
    ];
    assert forall|i: int, j: int| 0 <= i < j < 6 implies all[i] != all[j] by {
        assert(all[i][2] != all[j][2]);
    }
    let e = severity_count(disks, th, Some(AlertSeverity::Emergency)) > 0;
    let c = severity_count(disks, th, Some(AlertSeverity::Critical)) > 0;
    let w = severity_count(disks, th, Some(AlertSeverity::Warning)) > 0;
    let a = any_abnormal(trends);
    let f = soon_full(disks, trends);
    let s1 = push_if(Seq::empty(), e, advice_emergency());
    let s2 = push_if(s1, c, advice_critical());
    let s3 = push_if(s2, w, advice_warning());
    let s4 = push_if(s3, a, advice_abnormal());
    let s5 = push_if(s4, f, advice_soon_full());
    assert(all[0] == advice_emergency() && all[1] == advice_critical() && all[2]
        == advice_warning() && all[3] == advice_abnormal() && all[4] == advice_soon_full()
        && all[5] == advice_none());
    let r = recommendations(disks, th, trends);
    // Every item of the list is one of the advices, pushed under its own condition.
    assert forall|x: Seq<char>| #[trigger] r.contains(x) implies (x == advice_emergency() && e) || (
    x == advice_critical() && c) || (x == advice_warning() && w) || (x == advice_abnormal() && a)
        || (x == advice_soon_full() && f) || x == advice_none() by {
        let k = choose|k: int| 0 <= k < r.len() && r[k] == x;
        if s5.len() > 0 {
            assert(r == s5);
            if f && k == s5.len() - 1 {
            } else {
                assert(s4.contains(x)) by {
                    if f { assert(s4[k] == x); } else { assert(s4[k] == x); }
                }
                let k4 = choose|k4: int| 0 <= k4 < s4.len() && s4[k4] == x;
                if a && k4 == s4.len() - 1 {
                } else {
                    assert(s3[k4] == x);
                    if w && k4 == s3.len() - 1 {
                    } else {
                        assert(s2[k4] == x);
                        if c && k4 == s2.len() - 1 {
                        } else {
                            assert(s1[k4] == x);
                        }
                    }
                }
            }
        }
    }
    if e {
        assert(s1[s1.len() - 1] == advice_emergency());
        assert(s5.contains(advice_emergency())) by {
            assert(s2[s1.len() - 1] == advice_emergency());
            assert(s3[s1.len() - 1] == advice_emergency());
            assert(s4[s1.len() - 1] == advice_emergency());
            assert(s5[s1.len() - 1] == advice_emergency());
        }
    }
    if c {
        assert(s5.contains(advice_critical())) by {
            assert(s2[s2.len() - 1] == advice_critical());
            assert(s3[s2.len() - 1] == advice_critical());
            assert(s4[s2.len() - 1] == advice_critical());
            assert(s5[s2.len() - 1] == advice_critical());
        }
    }
    if w {
        assert(s5.contains(advice_warning())) by {
            assert(s3[s3.len() - 1] == advice_warning());
            assert(s4[s3.len() - 1] == advice_warning());
            assert(s5[s3.len() - 1] == advice_warning());
        }
    }
}

/// List items, each escaped.
pub open spec fn list_items(items: Seq<Seq<char>>) -> Seq<char>
    decreases items.len(),
{
    if items.len() == 0 {
        Seq::empty()
    } else {
        list_items(items.drop_last()) + "<li>"@ + escape_text(items.last()) + "</li>"@
    }
}

fn push_item(s: &mut String, items: Ghost<Seq<Seq<char>>>, item: &str)
    requires
        old(s)@ == list_items(items@),
    ensures
        final(s)@ == list_items(items@.push(item@)),
{
    s.append("<li>");
    push_escaped(s, item);
    s.append("</li>");
    assert(items@.push(item@).drop_last() =~= items@);
    assert(s@ =~= list_items(items@.push(item@)));
}

/// The executive summary: overall status, counts per status, the fullest
/// mount points, the largest growths of the last day, the nearest fill
/// estimates and the recommendations.
pub open spec fn executive_summary_text(
    disks: Seq<DiskInfo>,
    th: AlertThresholds,
    trends: Map<Seq<char>, TrendInfo>,
) -> Seq<char> {
    "<div class=\"executive\">\n        <h2>Sumar executiv</h2>\n        <div class=\"kpis\">\n          <div><span>Status general</span><strong>"@
        + escape_text(status_text(disks, th, trends))
        + "</strong></div>\n          <div><span>OK</span><strong>"@
        + decimal(severity_count(disks, th, None))
        + "</strong></div>\n          <div><span>WARNING</span><strong>"@
        + decimal(severity_count(disks, th, Some(AlertSeverity::Warning)))
        + "</strong></div>\n          <div><span>CRITICAL</span><strong>"@
        + decimal(severity_count(disks, th, Some(AlertSeverity::Critical)))
        + "</strong></div>\n          <div><span>EMERGENCY</span><strong>"@
        + decimal(severity_count(disks, th, Some(AlertSeverity::Emergency)))
        + "</strong></div>\n        </div>\n        <h3>Top 5 cele mai ocupate mount point-uri</h3>\n        "@
        + table_text(
        seq!["Mount point"@, "Ocupare"@, "Disponibil"@, "Severitate"@],
        occupied_rows(disks, th),
    ) + "\n        <h3>Top 5 cele mai mari cresteri fata de ziua precedenta</h3>\n        "@
        + table_text(
        seq!["Mount point"@, "Crestere 24h"@, "Crestere 7 zile"@, "Anormal"@],
        growth_rows(disks, trends),
    ) + "\n        <h3>Estimari time-to-full</h3>\n        "@ + table_text(
        seq!["Mount point"@, "Estimare"@, "Disponibil"@, "Severitate"@],
        fill_rows(disks, trends, th),
    ) + "\n        <h3>Recomandari de actiune</h3>\n        <ul class=\"recommendations\">"@
        + list_items(recommendations(disks, th, trends)) + "</ul>\n      </div>"@
}

fn recommendation_list(
    disks: &[DiskInfo],
    thresholds: AlertThresholds,
    trends: &KeyedMap<TrendInfo>,
    warning_count: usize,
    critical_count: usize,
    emergency_count: usize,
) -> (r: String)
    requires
        trends.wf(),
        warning_count == severity_count(disks@, thresholds, Some(AlertSeverity::Warning)),
        critical_count == severity_count(disks@, thresholds, Some(AlertSeverity::Critical)),
        emergency_count == severity_count(disks@, thresholds, Some(AlertSeverity::Emergency)),
    ensures
        r@ == list_items(recommendations(disks@, thresholds, trends@)),
{
    let mut recs = String::new();
    let mut any = false;
    let ghost mut items: Seq<Seq<char>> = Seq::empty();
    assert(recs@ =~= list_items(items));
    if emergency_count > 0 {
        push_item(
            &mut recs,
            Ghost(items),
            "Interventie imediata pe mount point-urile EMERGENCY: curatare, extindere volum sau mutare date.",
        );
        any = true;
        proof {
            items = items.push(advice_emergency());
        }
    }
    if critical_count > 0 {
        push_item(&mut recs, Ghost(items), "Plan de remediere in aceeasi zi pentru mount point-urile CRITICAL.");
        any = true;
        proof {
            items = items.push(advice_critical());
        }
    }
    if warning_count > 0 {
        push_item(&mut recs, Ghost(items), "Urmarire si verificare cauze pentru mount point-urile WARNING.");
        any = true;
        proof {
            items = items.push(advice_warning());
        }
    }
    if has_abnormal_trend(trends) {
        push_item(
            &mut recs,
            Ghost(items),
            "Investigati procesele/logurile care au produs crestere anormala in ultimele 24h.",
        );
        any = true;
        proof {
            items = items.push(advice_abnormal());
        }
    }
    if has_soon_full(disks, trends) {
        push_item(&mut recs, Ghost(items), "Prioritizati mount point-urile cu estimare de umplere sub 7 zile.");
        any = true;
        proof {
            items = items.push(advice_soon_full());
        }
    }
    assert(any <==> items.len() > 0);
    if !any {
        push_item(&mut recs, Ghost(items), "Nu sunt actiuni urgente; continuati monitorizarea zilnica.");
        proof {
            items = items.push(advice_none());
        }
    }
    proof {
        assert(items =~= recommendations(disks@, thresholds, trends@));
    }
    recs
}

/// The executive summary that opens a full report.
#[verifier::rlimit(40)]
pub fn build_executive_summary(
    disks: &[DiskInfo],
    thresholds: AlertThresholds,
    trends: &KeyedMap<TrendInfo>,
) -> (r: String)
    requires
        trends.wf(),
    ensures
        r@ == executive_summary_text(disks@, thresholds, trends@),
{
    let (ok_count, warning_count, critical_count, emergency_count) = severity_counts(
        disks,
        thresholds,
    );
    let status = overall_status(disks, thresholds, trends);
    let recs = recommendation_list(
        disks,
        thresholds,
        trends,
        warning_count,
        critical_count,
        emergency_count,
    );
    let headers1: [&str; 4] = ["Mount point", "Ocupare", "Disponibil", "Severitate"];
    let headers2: [&str; 4] = ["Mount point", "Crestere 24h", "Crestere 7 zile", "Anormal"];
    let headers3: [&str; 4] = ["Mount point", "Estimare", "Disponibil", "Severitate"];
    let top_occupied = executive_table(&headers1, occupied_table_rows(disks, thresholds));
    let top_growth = executive_table(&headers2, growth_table_rows(disks, trends));
    let time_to_full = executive_table(&headers3, fill_table_rows(disks, trends, thresholds));
    proof {
        assert(strs_view(headers1@) =~= seq!["Mount point"@, "Ocupare"@, "Disponibil"@, "Severitate"@]);
        assert(strs_view(headers2@) =~= seq![
            "Mount point"@,
            "Crestere 24h"@,
            "Crestere 7 zile"@,
            "Anormal"@,
        ]);
        assert(strs_view(headers3@) =~= seq!["Mount point"@, "Estimare"@, "Disponibil"@, "Severitate"@]);
    }
    let mut s = String::from_str(
        "<div class=\"executive\">\n        <h2>Sumar executiv</h2>\n        <div class=\"kpis\">\n          <div><span>Status general</span><strong>",
    );
    push_escaped(&mut s, status);
    s.append("</strong></div>\n          <div><span>OK</span><strong>");
    push_decimal(&mut s, ok_count as u128);
    s.append("</strong></div>\n          <div><span>WARNING</span><strong>");
    push_decimal(&mut s, warning_count as u128);
    s.append("</strong></div>\n          <div><span>CRITICAL</span><strong>");
    push_decimal(&mut s, critical_count as u128);
    s.append("</strong></div>\n          <div><span>EMERGENCY</span><strong>");
    push_decimal(&mut s, emergency_count as u128);
    s.append(
        "</strong></div>\n        </div>\n        <h3>Top 5 cele mai ocupate mount point-uri</h3>\n        ",
    );
    s.append(top_occupied.as_str());
    s.append("\n        <h3>Top 5 cele mai mari cresteri fata de ziua precedenta</h3>\n        ");
    s.append(top_growth.as_str());
    s.append("\n        <h3>Estimari time-to-full</h3>\n        ");
    s.append(time_to_full.as_str());
    s.append("\n        <h3>Recomandari de actiune</h3>\n        <ul class=\"recommendations\">");
    s.append(recs.as_str());
    s.append("</ul>\n      </div>");
    assert(s@ =~= executive_summary_text(disks@, thresholds, trends@));
    s
}

} // verus!
