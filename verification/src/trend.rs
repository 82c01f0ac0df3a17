use vstd::prelude::*;

use crate::alert::{AlertStateFile, DiskHistorySample};
use crate::config::{NANOS_PER_DAY, NANOS_PER_HOUR, NANOS_PER_SECOND, SECONDS_PER_DAY};
use crate::disk::{DiskInfo, mount_key, mount_key_text};
use crate::keyed_map::KeyedMap;

verus! {

/// Days of history kept for trends.
pub const HISTORY_RETENTION_DAYS: i64 = 31;

/// Bytes in one gibibyte.
pub const ONE_GIB: i64 = 1_073_741_824;

/// Growth and fill estimate of one mount point. Growths are in bytes,
/// the estimate in seconds.
#[derive(Clone, Copy, Debug, PartialEq, Eq, Structural)]
pub struct TrendInfo {
    pub growth_24h: Option<i64>,
    pub growth_7d: Option<i64>,
    pub growth_30d: Option<i64>,
    pub time_to_full_seconds: Option<i64>,
    pub abnormal_growth: bool,
}

/// Sample `i` is the latest of those taken at or before `limit`; among
/// equally late ones, the last in the list.
pub open spec fn latest_at_or_before(s: Seq<DiskHistorySample>, limit: int, i: int) -> bool {
    &&& 0 <= i < s.len()
    &&& s[i].timestamp <= limit
    &&& forall|j: int|
        0 <= j < s.len() && #[trigger] s[j].timestamp <= limit ==> s[j].timestamp
            <= s[i].timestamp && (j > i ==> s[j].timestamp < s[i].timestamp)
}

/// Sample `i` is the earliest of those taken at or before `limit`; among
/// equally early ones, the first in the list.
pub open spec fn earliest_at_or_before(s: Seq<DiskHistorySample>, limit: int, i: int) -> bool {
    &&& 0 <= i < s.len()
    &&& s[i].timestamp <= limit
    &&& forall|j: int|
        0 <= j < s.len() && #[trigger] s[j].timestamp <= limit ==> s[i].timestamp
            <= s[j].timestamp && (j < i ==> s[j].timestamp > s[i].timestamp)
}

/// Position of the sample that a trend over `window` nanoseconds compares
/// against: the latest sample at least `window` old; failing that, the
/// earliest sample at least half a window old (half rounded down);
/// failing that, none.
pub open spec fn window_sample_index(s: Seq<DiskHistorySample>, now: int, window: int) -> Option<
    int,
> {
    if exists|i: int| #[trigger] latest_at_or_before(s, now - window, i) {
        Some(choose|i: int| #[trigger] latest_at_or_before(s, now - window, i))
    } else if exists|i: int| #[trigger] earliest_at_or_before(s, now - window / 2, i) {
        Some(choose|i: int| #[trigger] earliest_at_or_before(s, now - window / 2, i))
    } else {
        None
    }
}

/// The sample that a trend over `window` compares against.
pub open spec fn window_sample(s: Seq<DiskHistorySample>, now: int, window: int) -> Option<
    DiskHistorySample,
> {
    match window_sample_index(s, now, window) {
        Some(i) => Some(s[i]),
        None => None,
    }
}

proof fn lemma_latest_unique(s: Seq<DiskHistorySample>, limit: int, i: int, j: int)
    requires
        latest_at_or_before(s, limit, i),
        latest_at_or_before(s, limit, j),
    ensures
        i == j,
{
    assert(s[j].timestamp <= limit);
    assert(s[i].timestamp <= limit);
}

proof fn lemma_earliest_unique(s: Seq<DiskHistorySample>, limit: int, i: int, j: int)
    requires
        earliest_at_or_before(s, limit, i),
        earliest_at_or_before(s, limit, j),
    ensures
        i == j,
{
    assert(s[j].timestamp <= limit);
    assert(s[i].timestamp <= limit);
}

/// Position of the latest sample at or before `limit`, if any.
fn latest_position(s: &[DiskHistorySample], limit: i128) -> (r: Option<usize>)
    ensures
        r matches Some(i) ==> latest_at_or_before(s@, limit as int, i as int),
        r is None ==> !exists|i: int| #[trigger] latest_at_or_before(s@, limit as int, i),
{
    let n = s.len();
    let mut best: Option<usize> = None;
    let mut k: usize = 0;
    while k < n
        invariant
            n == s@.len(),
            k <= n,
            best matches Some(b) ==> latest_at_or_before(s@.take(k as int), limit as int, b as int),
            best is None ==> forall|j: int| 0 <= j < k ==> s@[j].timestamp > limit,
        decreases n - k,
    {
        let t = s[k].timestamp;
        let ghost pre = s@.take(k as int);
        let ghost post = s@.take(k + 1);
        assert(post =~= pre.push(s@[k as int]));
        if t as i128 <= limit {
            let take = match best {
                Some(b) => s[b].timestamp <= t,
                None => true,
            };
            if take {
                best = Some(k);
                proof {
                    assert forall|j: int|
                        0 <= j < post.len() && #[trigger] post[j].timestamp <= limit implies post[j].timestamp
                        <= post[k as int].timestamp && (j > k ==> post[j].timestamp
                        < post[k as int].timestamp) by {
                        if j < k {
                            assert(post[j] == pre[j]);
                        }
                    }
                }
            } else {
                proof {
                    let b = best->0;
                    assert forall|j: int|
                        0 <= j < post.len() && #[trigger] post[j].timestamp <= limit implies post[j].timestamp
                        <= post[b as int].timestamp && (j > b ==> post[j].timestamp
                        < post[b as int].timestamp) by {
                        if j < k {
                            assert(post[j] == pre[j]);
                            assert(pre[j].timestamp <= limit);
                        }
                    }
                }
            }
        } else {
            proof {
                if best is Some {
                    let b = best->0;
                    assert forall|j: int|
                        0 <= j < post.len() && #[trigger] post[j].timestamp <= limit implies post[j].timestamp
                        <= post[b as int].timestamp && (j > b ==> post[j].timestamp
                        < post[b as int].timestamp) by {
                        if j < k {
                            assert(post[j] == pre[j]);
                            assert(pre[j].timestamp <= limit);
                        }
                    }
                }
            }
        }
        k = k + 1;
    }
    assert(s@.take(n as int) =~= s@);
    proof {
        if best is None {
            assert forall|i: int| !latest_at_or_before(s@, limit as int, i) by {
                if 0 <= i < n {
                    assert(s@[i].timestamp > limit);
                }
            }
        }
    }
    best
}

/// Position of the earliest sample at or before `limit`, if any.
fn earliest_position(s: &[DiskHistorySample], limit: i128) -> (r: Option<usize>)
    ensures
        r matches Some(i) ==> earliest_at_or_before(s@, limit as int, i as int),
        r is None ==> !exists|i: int| #[trigger] earliest_at_or_before(s@, limit as int, i),
{
    let n = s.len();
    let mut best: Option<usize> = None;
    let mut k: usize = 0;
    while k < n
        invariant
            n == s@.len(),
            k <= n,
            best matches Some(b) ==> earliest_at_or_before(
                s@.take(k as int),
                limit as int,
                b as int,
            ),
            best is None ==> forall|j: int| 0 <= j < k ==> s@[j].timestamp > limit,
        decreases n - k,
    {
        let t = s[k].timestamp;
        let ghost pre = s@.take(k as int);
        let ghost post = s@.take(k + 1);
        assert(post =~= pre.push(s@[k as int]));
        if t as i128 <= limit {
            let take = match best {
                Some(b) => t < s[b].timestamp,
                None => true,
            };
            if take {
                best = Some(k);
                proof {
                    assert forall|j: int|
                        0 <= j < post.len() && #[trigger] post[j].timestamp <= limit implies post[k as int].timestamp
                        <= post[j].timestamp && (j < k ==> post[j].timestamp
                        > post[k as int].timestamp) by {
                        if j < k {
                            assert(post[j] == pre[j]);
                        }
                    }
                }
            } else {
                proof {
                    let b = best->0;
                    assert forall|j: int|
                        0 <= j < post.len() && #[trigger] post[j].timestamp <= limit implies post[b as int].timestamp
                        <= post[j].timestamp && (j < b ==> post[j].timestamp
                        > post[b as int].timestamp) by {
                        if j < k {
                            assert(post[j] == pre[j]);
                            assert(pre[j].timestamp <= limit);
                        }
                    }
                }
            }
        } else {
            proof {
                if best is Some {
                    let b = best->0;
                    assert forall|j: int|
                        0 <= j < post.len() && #[trigger] post[j].timestamp <= limit implies post[b as int].timestamp
                        <= post[j].timestamp && (j < b ==> post[j].timestamp
                        > post[b as int].timestamp) by {
                        if j < k {
                            assert(post[j] == pre[j]);
                            assert(pre[j].timestamp <= limit);
                        }
                    }
                }
            }
        }
        k = k + 1;
    }
    assert(s@.take(n as int) =~= s@);
    proof {
        if best is None {
            assert forall|i: int| !earliest_at_or_before(s@, limit as int, i) by {
                if 0 <= i < n {
                    assert(s@[i].timestamp > limit);
                }
            }
        }
    }
    best
}

/// The sample that a trend over `window` nanoseconds compares against.
pub fn sample_for_window<'a>(samples: &'a [DiskHistorySample], now: i64, window: i64) -> (r:
    Option<&'a DiskHistorySample>)
    ensures
        r matches Some(x) ==> window_sample(samples@, now as int, window as int) == Some(*x),
        r is None ==> window_sample(samples@, now as int, window as int) is None,
{
    let cutoff: i128 = now as i128 - window as i128;
    match latest_position(samples, cutoff) {
        Some(i) => {
            proof {
                let c = choose|j: int| #[trigger] latest_at_or_before(samples@, now - window, j);
                lemma_latest_unique(samples@, now - window, i as int, c);
            }
            Some(&samples[i])
        },
        None => {
            let w: i128 = window as i128;
            let minimum_age: i128 = if w >= 0 {
                w / 2
            } else {
                -((1 - w) / 2)
            };
            assert(minimum_age == window as int / 2);
            let limit: i128 = now as i128 - minimum_age;
            match earliest_position(samples, limit) {
                Some(i) => {
                    proof {
                        let c = choose|j: int|
                            #[trigger] earliest_at_or_before(samples@, now - window / 2, j);
                        lemma_earliest_unique(samples@, now - window / 2, i as int, c);
                    }
                    Some(&samples[i])
                },
                None => None,
            }
        },
    }
}

/// Byte counts below `2^63`, which the trend arithmetic handles as signed values.
pub open spec fn samples_fit(s: Seq<DiskHistorySample>) -> bool {
    forall|i: int| 0 <= i < s.len() ==> #[trigger] s[i].used_space <= i64::MAX
}

/// Used space now minus used space in the compared sample, in bytes.
pub open spec fn window_growth(s: Seq<DiskHistorySample>, d: DiskInfo, now: int, window: int) -> Option<
    i64,
> {
    match window_sample(s, now, window) {
        Some(x) => Some((d.used_space - x.used_space) as i64),
        None => None,
    }
}

/// Whole seconds in a span of nanoseconds, rounded toward zero.
pub open spec fn whole_seconds(ns: int) -> int {
    if ns >= 0 {
        ns / NANOS_PER_SECOND as int
    } else {
        -((-ns) / NANOS_PER_SECOND as int)
    }
}

/// Growth of used space over `window` nanoseconds, if a sample to compare exists.
pub fn growth_for_window(samples: &[DiskHistorySample], disk: &DiskInfo, now: i64, window: i64) -> (r:
    Option<i64>)
    requires
        disk.used_space <= i64::MAX,
        samples_fit(samples@),
    ensures
        r == window_growth(samples@, *disk, now as int, window as int),
{
    match sample_for_window(samples, now, window) {
        Some(x) => {
            proof {
                let i = window_sample_index(samples@, now as int, window as int)->0;
                assert(samples@[i].used_space <= i64::MAX);
            }
            Some(disk.used_space as i64 - x.used_space as i64)
        },
        None => None,
    }
}

/// Nanoseconds since the compared sample of a trend over `window`.
pub open spec fn window_elapsed(s: Seq<DiskHistorySample>, now: int, window: int) -> Option<int> {
    match window_sample(s, now, window) {
        Some(x) => Some(now - x.timestamp),
        None => None,
    }
}

/// Time since the sample that a trend over `window` compares against, in nanoseconds.
pub fn elapsed_since_sample(samples: &[DiskHistorySample], now: i64, window: i64) -> (r: Option<i128>)
    ensures
        r matches Some(e) ==> window_elapsed(samples@, now as int, window as int) == Some(e as int),
        r is None ==> window_elapsed(samples@, now as int, window as int) is None,
{
    match sample_for_window(samples, now, window) {
        Some(x) => Some(now as i128 - x.timestamp as i128),
        None => None,
    }
}

/// Seconds until `available` bytes fill at `growth` bytes per `elapsed`
/// seconds, rounded up and capped at the largest `i64`.
pub open spec fn fill_seconds(available: int, elapsed: int, growth: int) -> int {
    let q = (available * elapsed + growth - 1) / growth;
    if q > i64::MAX {
        i64::MAX as int
    } else {
        q
    }
}

/// Fill estimate from the trend over `window`: none without a sample, or
/// when no time passed or the disk did not grow since it.
pub open spec fn window_fill_estimate(
    s: Seq<DiskHistorySample>,
    d: DiskInfo,
    now: int,
    window: int,
) -> Option<int> {
    match window_sample(s, now, window) {
        Some(x) => {
            let e = whole_seconds(now - x.timestamp);
            let g = d.used_space - x.used_space;
            if e <= 0 || g <= 0 {
                None
            } else {
                Some(fill_seconds(d.available_space as int, e, g))
            }
        },
        None => None,
    }
}

/// Seconds until the disk is full, from the first of the 24-hour, 7-day
/// and 30-day trends that gives an estimate.
pub open spec fn time_to_full(s: Seq<DiskHistorySample>, d: DiskInfo, now: int) -> Option<int> {
    match window_fill_estimate(s, d, now, NANOS_PER_HOUR * 24) {
        Some(t) => Some(t),
        None => match window_fill_estimate(s, d, now, NANOS_PER_DAY * 7) {
            Some(t) => Some(t),
            None => window_fill_estimate(s, d, now, NANOS_PER_DAY * 30),
        },
    }
}

fn whole_seconds_of(ns: i128) -> (r: i128)
    requires
        -0x1_0000_0000_0000_0000 < ns < 0x1_0000_0000_0000_0000,
    ensures
        r == whole_seconds(ns as int),
{
    if ns >= 0 {
        ns / NANOS_PER_SECOND as i128
    } else {
        -((-ns) / NANOS_PER_SECOND as i128)
    }
}

fn window_estimate(samples: &[DiskHistorySample], disk: &DiskInfo, now: i64, window: i64) -> (r:
    Option<i64>)
    requires
        disk.used_space <= i64::MAX,
        samples_fit(samples@),
    ensures
        r matches Some(t) ==> window_fill_estimate(samples@, *disk, now as int, window as int)
            == Some(t as int),
        r is None ==> window_fill_estimate(samples@, *disk, now as int, window as int) is None,
{
    match sample_for_window(samples, now, window) {
        Some(x) => {
            proof {
                let i = window_sample_index(samples@, now as int, window as int)->0;
                assert(samples@[i].used_space <= i64::MAX);
            }
            let diff: i128 = now as i128 - x.timestamp as i128;
            let elapsed = whole_seconds_of(diff);
            let growth: i64 = disk.used_space as i64 - x.used_space as i64;
            if elapsed <= 0 || growth <= 0 {
                return None;
            }
            let e: u128 = elapsed as u128;
            let g: u128 = growth as u128;
            let a: u128 = disk.available_space as u128;
            assert(elapsed <= 20_000_000_000);
            assert(a * e <= 0xffff_ffff_ffff_ffffu128 * 20_000_000_000u128) by (nonlinear_arith)
                requires
                    a <= 0xffff_ffff_ffff_ffffu128,
                    e <= 20_000_000_000u128,
            ;
            let q: u128 = (a * e + g - 1) / g;
            if q > i64::MAX as u128 {
                Some(i64::MAX)
            } else {
                Some(q as i64)
            }
        },
        None => None,
    }
}

/// Seconds until the disk is full at its recent growth rate.
pub fn estimate_time_to_full(samples: &[DiskHistorySample], disk: &DiskInfo, now: i64) -> (r:
    Option<i64>)
    requires
        disk.used_space <= i64::MAX,
        samples_fit(samples@),
    ensures
        r matches Some(t) ==> time_to_full(samples@, *disk, now as int) == Some(t as int),
        r is None ==> time_to_full(samples@, *disk, now as int) is None,
{
    match window_estimate(samples, disk, now, NANOS_PER_HOUR * 24) {
        Some(t) => Some(t),
        None => match window_estimate(samples, disk, now, NANOS_PER_DAY * 7) {
            Some(t) => Some(t),
            None => window_estimate(samples, disk, now, NANOS_PER_DAY * 30),
        },
    }
}

/// The last day grew by more than 1 GiB and by more than twice the
/// average daily growth since the 7-day sample, which must be at least
/// two days old; both growths must be positive.
pub open spec fn abnormal(
    s: Seq<DiskHistorySample>,
    now: int,
    growth_24h: Option<i64>,
    growth_7d: Option<i64>,
) -> bool {
    match (growth_24h, growth_7d) {
        (Some(a), Some(b)) => {
            if a <= 0 || b <= 0 {
                false
            } else {
                match window_elapsed(s, now, NANOS_PER_DAY * 7) {
                    Some(e) => {
                        let secs = whole_seconds(e);
                        secs >= 2 * SECONDS_PER_DAY && a > ONE_GIB && a * secs > 2 * b
                            * SECONDS_PER_DAY
                    },
                    None => false,
                }
            }
        },
        _ => false,
    }
}

/// Whether the last day's growth is abnormal against the last week.
pub fn is_abnormal_growth(
    samples: &[DiskHistorySample],
    disk: &DiskInfo,
    now: i64,
    growth_24h: Option<i64>,
    growth_7d: Option<i64>,
) -> (r: bool)
    ensures
        r == abnormal(samples@, now as int, growth_24h, growth_7d),
{
    let a = match growth_24h {
        Some(a) => a,
        None => return false,
    };
    if a <= 0 {
        return false;
    }
    let b = match growth_7d {
        Some(b) => b,
        None => return false,
    };
    if b <= 0 {
        return false;
    }
    let elapsed = match elapsed_since_sample(samples, now, NANOS_PER_DAY * 7) {
        Some(e) => e,
        None => return false,
    };
    let secs = whole_seconds_of(elapsed);
    if secs < 2 * SECONDS_PER_DAY as i128 {
        return false;
    }
    assert(secs <= 20_000_000_000);
    assert(a as int * secs as int <= 0x7fff_ffff_ffff_ffffint * 20_000_000_000int) by (nonlinear_arith)
        requires
            0 < a <= 0x7fff_ffff_ffff_ffffint,
            0 < secs <= 20_000_000_000int,
    ;
    a > ONE_GIB && (a as i128) * secs > 2 * (b as i128) * SECONDS_PER_DAY as i128
}

/// Trend of a disk from its samples.
pub open spec fn trend_of(s: Seq<DiskHistorySample>, d: DiskInfo, now: int) -> TrendInfo {
    let g24 = window_growth(s, d, now, NANOS_PER_HOUR * 24);
    let g7 = window_growth(s, d, now, NANOS_PER_DAY * 7);
    TrendInfo {
        growth_24h: g24,
        growth_7d: g7,
        growth_30d: window_growth(s, d, now, NANOS_PER_DAY * 30),
        time_to_full_seconds: match time_to_full(s, d, now) {
            Some(t) => Some(t as i64),
            None => None,
        },
        abnormal_growth: abnormal(s, now, g24, g7),
    }
}

/// The growth over a window compares the used space now with the sample
/// the window picks: the latest sample at least a window old, else the
/// earliest sample at least half a window old, else none.
pub proof fn lemma_window_growth(s: Seq<DiskHistorySample>, d: DiskInfo, now: int, window: int)
    ensures
        forall|i: int|
            #[trigger] latest_at_or_before(s, now - window, i) ==> window_growth(s, d, now, window)
                == Some((d.used_space - s[i].used_space) as i64),
        (forall|i: int| !#[trigger] latest_at_or_before(s, now - window, i)) ==> forall|i: int|
            #[trigger] earliest_at_or_before(s, now - window / 2, i) ==> window_growth(
                s,
                d,
                now,
                window,
            ) == Some((d.used_space - s[i].used_space) as i64),
        (forall|i: int| !#[trigger] latest_at_or_before(s, now - window, i)) && (forall|i: int|
            !#[trigger] earliest_at_or_before(s, now - window / 2, i)) ==> window_growth(
            s,
            d,
            now,
            window,
        ) is None,
{
    assert forall|i: int| #[trigger] latest_at_or_before(s, now - window, i) implies window_growth(
        s,
        d,
        now,
        window,
    ) == Some((d.used_space - s[i].used_space) as i64) by {
        let c = choose|j: int| #[trigger] latest_at_or_before(s, now - window, j);
        lemma_latest_unique(s, now - window, i, c);
    }
    if forall|i: int| !#[trigger] latest_at_or_before(s, now - window, i) {
        assert forall|i: int| #[trigger] earliest_at_or_before(s, now - window / 2, i) implies window_growth(
            s,
            d,
            now,
            window,
        ) == Some((d.used_space - s[i].used_space) as i64) by {
            let c = choose|j: int| #[trigger] earliest_at_or_before(s, now - window / 2, j);
            lemma_earliest_unique(s, now - window / 2, i, c);
        }
    }
}

/// The trend of a disk reports, for each of the 24-hour, 7-day and 30-day
/// windows, the growth over that very window: used space now minus the
/// used space of the sample picked for the window.
pub proof fn law_trend_windows(s: Seq<DiskHistorySample>, d: DiskInfo, now: int)
    ensures
        trend_of(s, d, now).growth_24h == window_growth(s, d, now, 86_400_000_000_000),
        trend_of(s, d, now).growth_7d == window_growth(s, d, now, 604_800_000_000_000),
        trend_of(s, d, now).growth_30d == window_growth(s, d, now, 2_592_000_000_000_000),
        forall|i: int|
            #[trigger] latest_at_or_before(s, now - 2_592_000_000_000_000, i) ==> trend_of(
                s,
                d,
                now,
            ).growth_30d == Some((d.used_space - s[i].used_space) as i64),
        forall|i: int|
            #[trigger] latest_at_or_before(s, now - 604_800_000_000_000, i) ==> trend_of(
                s,
                d,
                now,
            ).growth_7d == Some((d.used_space - s[i].used_space) as i64),
        forall|i: int|
            #[trigger] latest_at_or_before(s, now - 86_400_000_000_000, i) ==> trend_of(
                s,
                d,
                now,
            ).growth_24h == Some((d.used_space - s[i].used_space) as i64),
{
    lemma_window_growth(s, d, now, 2_592_000_000_000_000);
    lemma_window_growth(s, d, now, 604_800_000_000_000);
    lemma_window_growth(s, d, now, 86_400_000_000_000);
}

/// Samples kept for `key`, or none.
pub open spec fn history_of(h: KeyedMap<Vec<DiskHistorySample>>, key: Seq<char>) -> Seq<
    DiskHistorySample,
> {
    if h@.contains_key(key) {
        h@[key]@
    } else {
        Seq::empty()
    }
}

/// Every kept sample has a used byte count below `2^63`.
pub open spec fn history_fits(h: KeyedMap<Vec<DiskHistorySample>>) -> bool {
    forall|k: Seq<char>| #[trigger] h@.contains_key(k) ==> samples_fit(h@[k]@)
}

/// Every disk has a used byte count below `2^63`.
pub open spec fn disks_fit(disks: Seq<DiskInfo>) -> bool {
    forall|i: int| 0 <= i < disks.len() ==> #[trigger] disks[i].used_space <= i64::MAX
}

/// Trends of the first `n` disks, by key; a later disk with the same key
/// replaces an earlier one.
pub open spec fn trends_prefix(
    h: KeyedMap<Vec<DiskHistorySample>>,
    disks: Seq<DiskInfo>,
    n: nat,
    now: int,
) -> Map<Seq<char>, TrendInfo>
    decreases n,
{
    if n == 0 {
        Map::empty()
    } else {
        let d = disks[n - 1];
        trends_prefix(h, disks, (n - 1) as nat, now).insert(
            mount_key_text(d),
            trend_of(history_of(h, mount_key_text(d)), d, now),
        )
    }
}

/// Trends of every disk against its kept history, by mount key.
pub fn calculate_trends(state: &AlertStateFile, disks: &[DiskInfo], now: i64) -> (r: KeyedMap<
    TrendInfo,
>)
    requires
        state.history.wf(),
        history_fits(state.history),
        disks_fit(disks@),
    ensures
        r.wf(),
        r@ == trends_prefix(state.history, disks@, disks@.len(), now as int),
{
    let mut trends: KeyedMap<TrendInfo> = KeyedMap::new();
    let empty: Vec<DiskHistorySample> = Vec::new();
    let n = disks.len();
    let mut i: usize = 0;
    while i < n
        invariant
            n == disks@.len(),
            i <= n,
            trends.wf(),
            state.history.wf(),
            history_fits(state.history),
            disks_fit(disks@),
            empty@.len() == 0,
            trends@ == trends_prefix(state.history, disks@, i as nat, now as int),
        decreases n - i,
    {
        let disk = &disks[i];
        assert(disk.used_space <= i64::MAX);
        let key = mount_key(disk);
        let samples: &[DiskHistorySample] = match state.history.get(key.as_str()) {
            Some(v) => v.as_slice(),
            None => empty.as_slice(),
        };
        assert(samples@ == history_of(state.history, key@));
        assert(samples_fit(samples@));
        let growth_24h = growth_for_window(samples, disk, now, NANOS_PER_HOUR * 24);
        let growth_7d = growth_for_window(samples, disk, now, NANOS_PER_DAY * 7);
        let growth_30d = growth_for_window(samples, disk, now, NANOS_PER_DAY * 30);
        let time_to_full_seconds = estimate_time_to_full(samples, disk, now);
        let abnormal_growth = is_abnormal_growth(samples, disk, now, growth_24h, growth_7d);
        let info = TrendInfo {
            growth_24h,
            growth_7d,
            growth_30d,
            time_to_full_seconds,
            abnormal_growth,
        };
        proof {
            match time_to_full_seconds {
                Some(t) => {
                    assert(time_to_full(samples@, *disk, now as int) == Some(t as int));
                },
                None => {},
            }
            assert(info == trend_of(history_of(state.history, key@), *disk, now as int));
        }
        trends.insert(key, info);
        i = i + 1;
    }
    trends
}

/// Whether every kept sample and every disk has a used byte count below
/// `2^63`, as the trend arithmetic needs.
pub fn trend_inputs_fit(state: &AlertStateFile, disks: &[DiskInfo]) -> (r: bool)
    requires
        state.history.wf(),
    ensures
        r == (history_fits(state.history) && disks_fit(disks@)),
{
    let h = &state.history;
    let n = h.len();
    proof {
        h.lemma_sizes();
        h.lemma_view_keys();
    }
    let mut i: usize = 0;
    while i < n
        invariant
            n == h.keys().len(),
            *h == state.history,
            h.keys().len() == h.values().len(),
            h.wf(),
            i <= n,
            forall|j: int| 0 <= j < i ==> samples_fit(#[trigger] h.values()[j]@),
        decreases n - i,
    {
        let v = h.value_at(i);
        let m = v.len();
        let mut k: usize = 0;
        while k < m
            invariant
                m == v@.len(),
                *h == state.history,
                h.wf(),
                i < n,
                n == h.keys().len(),
                h.keys().len() == h.values().len(),
                *v == h.values()[i as int],
                k <= m,
                forall|q: int| 0 <= q < k ==> #[trigger] v@[q].used_space <= i64::MAX,
            decreases m - k,
        {
            if v[k].used_space > i64::MAX as u64 {
                proof {
                    h.lemma_view_at(i as int);
                    assert(h@.contains_key(h.keys()[i as int]));
                    assert(!samples_fit(h@[h.keys()[i as int]]@));
                }
                return false;
            }
            k = k + 1;
        }
        i = i + 1;
    }
    assert forall|key: Seq<char>| #[trigger] h@.contains_key(key) implies samples_fit(h@[key]@) by {
        assert(h.keys().contains(key));
        let j = choose|j: int| 0 <= j < h.keys().len() && h.keys()[j] == key;
        h.lemma_view_at(j);
        assert(samples_fit(h.values()[j]@));
    }
    let d = disks.len();
    let mut i: usize = 0;
    while i < d
        invariant
            d == disks@.len(),
            history_fits(state.history),
            i <= d,
            forall|j: int| 0 <= j < i ==> #[trigger] disks@[j].used_space <= i64::MAX,
        decreases d - i,
    {
        if disks[i].used_space > i64::MAX as u64 {
            return false;
        }
        i = i + 1;
    }
    true
}

} // verus!
