use vstd::prelude::*;

use crate::alert::{AlertStateFile, DiskHistorySample, key_is_seen, seen_keys};
use crate::config::NANOS_PER_DAY;
use crate::disk::{DiskInfo, mount_key, mount_key_text};
use crate::keyed_map::KeyedMap;
use crate::trend::HISTORY_RETENTION_DAYS;

verus! {

/// The sample recorded for a disk at `now`.
pub open spec fn sample_of(d: DiskInfo, now: i64) -> DiskHistorySample {
    DiskHistorySample {
        timestamp: now,
        total_space: d.total_space,
        used_space: d.used_space,
        available_space: d.available_space,
    }
}

/// The sample recorded for a disk at `now`.
pub fn disk_history_sample(disk: &DiskInfo, now: i64) -> (r: DiskHistorySample)
    ensures
        r == sample_of(*disk, now),
{
    DiskHistorySample {
        timestamp: now,
        total_space: disk.total_space,
        used_space: disk.used_space,
        available_space: disk.available_space,
    }
}

/// Oldest instant whose samples are kept.
pub open spec fn retention_cutoff(now: int) -> int {
    now - HISTORY_RETENTION_DAYS as int * NANOS_PER_DAY as int
}

/// The samples taken at or after `cutoff`, in their order.
pub open spec fn keep_recent(s: Seq<DiskHistorySample>, cutoff: int) -> Seq<DiskHistorySample> {
    s.filter(|x: DiskHistorySample| x.timestamp >= cutoff)
}

/// Where `x` goes in `s`: after the last sample not later than it.
pub open spec fn insert_pos(s: Seq<DiskHistorySample>, x: DiskHistorySample) -> int
    decreases s.len(),
{
    if s.len() == 0 {
        0
    } else if s.last().timestamp <= x.timestamp {
        s.len() as int
    } else {
        insert_pos(s.drop_last(), x)
    }
}

/// The samples ordered by time; samples taken at the same instant keep
/// their relative order.
pub open spec fn sort_by_time(s: Seq<DiskHistorySample>) -> Seq<DiskHistorySample>
    decreases s.len(),
{
    if s.len() == 0 {
        s
    } else {
        let sorted = sort_by_time(s.drop_last());
        sorted.insert(insert_pos(sorted, s.last()), s.last())
    }
}

/// Samples in non-decreasing time order.
pub open spec fn time_ordered(s: Seq<DiskHistorySample>) -> bool {
    forall|i: int, j: int| 0 <= i <= j < s.len() ==> s[i].timestamp <= s[j].timestamp
}

/// The samples of a history, by key.
pub open spec fn history_map(h: KeyedMap<Vec<DiskHistorySample>>) -> Map<
    Seq<char>,
    Seq<DiskHistorySample>,
> {
    h@.map_values(|v: Vec<DiskHistorySample>| v@)
}

/// History after recording the first `n` disks: each gets a sample at
/// `now`, its old samples are dropped, and its list is ordered by time.
pub open spec fn record_prefix(
    h: Map<Seq<char>, Seq<DiskHistorySample>>,
    disks: Seq<DiskInfo>,
    n: nat,
    now: i64,
) -> Map<Seq<char>, Seq<DiskHistorySample>>
    decreases n,
{
    if n == 0 {
        h
    } else {
        let m = record_prefix(h, disks, (n - 1) as nat, now);
        let d = disks[n - 1];
        let k = mount_key_text(d);
        let before = if m.contains_key(k) {
            m[k]
        } else {
            Seq::empty()
        };
        m.insert(k, sort_by_time(keep_recent(before.push(sample_of(d, now)), retention_cutoff(now as int))))
    }
}

/// Drops old samples everywhere, and the mount points that were not
/// measured and have no sample left.
pub open spec fn prune(
    m: Map<Seq<char>, Seq<DiskHistorySample>>,
    seen: Set<Seq<char>>,
    cutoff: int,
) -> Map<Seq<char>, Seq<DiskHistorySample>> {
    Map::new(
        |k: Seq<char>| m.contains_key(k) && (seen.contains(k) || keep_recent(m[k], cutoff).len() > 0),
        |k: Seq<char>| keep_recent(m[k], cutoff),
    )
}

fn copy_samples(v: &Vec<DiskHistorySample>) -> (r: Vec<DiskHistorySample>)
    ensures
        r@ == v@,
{
    let mut r: Vec<DiskHistorySample> = Vec::new();
    let n = v.len();
    let mut i: usize = 0;
    while i < n
        invariant
            n == v@.len(),
            i <= n,
            r@ == v@.take(i as int),
        decreases n - i,
    {
        r.push(v[i]);
        assert(v@.take(i + 1) =~= v@.take(i as int).push(v@[i as int]));
        i = i + 1;
    }
    assert(v@.take(n as int) =~= v@);
    r
}

fn keep_recent_samples(v: &Vec<DiskHistorySample>, cutoff: i128) -> (r: Vec<DiskHistorySample>)
    ensures
        r@ == keep_recent(v@, cutoff as int),
{
    let mut r: Vec<DiskHistorySample> = Vec::new();
    let n = v.len();
    let mut i: usize = 0;
    while i < n
        invariant
            n == v@.len(),
            i <= n,
            r@ == keep_recent(v@.take(i as int), cutoff as int),
        decreases n - i,
    {
        let x = v[i];
        proof {
            reveal_with_fuel(Seq::filter, 1);
            assert(v@.take(i + 1).drop_last() =~= v@.take(i as int));
        }
        if x.timestamp as i128 >= cutoff {
            r.push(x);
        }
        i = i + 1;
    }
    assert(v@.take(n as int) =~= v@);
    r
}

fn insert_by_time(v: &mut Vec<DiskHistorySample>, x: DiskHistorySample)
    ensures
        final(v)@ == old(v)@.insert(insert_pos(old(v)@, x), x),
{
    let mut j = v.len();
    assert(v@.take(j as int) =~= v@);
    while j > 0 && v[j - 1].timestamp > x.timestamp
        invariant
            j <= v@.len(),
            v@ == old(v)@,
            insert_pos(v@, x) == insert_pos(v@.take(j as int), x),
        decreases j,
    {
        assert(v@.take(j as int).drop_last() =~= v@.take(j - 1));
        j = j - 1;
    }
    proof {
        if j > 0 {
            assert(v@.take(j as int).last() == v@[j - 1]);
        }
    }
    v.insert(j, x);
}

fn sort_samples(v: &Vec<DiskHistorySample>) -> (r: Vec<DiskHistorySample>)
    ensures
        r@ == sort_by_time(v@),
{
    let mut r: Vec<DiskHistorySample> = Vec::new();
    let n = v.len();
    let mut i: usize = 0;
    assert(v@.take(0) =~= Seq::<DiskHistorySample>::empty());
    while i < n
        invariant
            n == v@.len(),
            i <= n,
            r@ == sort_by_time(v@.take(i as int)),
        decreases n - i,
    {
        assert(v@.take(i + 1).drop_last() =~= v@.take(i as int));
        assert(v@.take(i + 1).last() == v@[i as int]);
        insert_by_time(&mut r, v[i]);
        i = i + 1;
    }
    assert(v@.take(n as int) =~= v@);
    r
}

/// Records a sample of every disk taken at `now`, keeps samples of the
/// last 31 days ordered by time, and forgets mount points that were not
/// measured and have no recent sample. Alerts are left as they are.
pub fn update_history(state: &mut AlertStateFile, disks: &[DiskInfo], now: i64)
    requires
        old(state).history.wf(),
    ensures
        final(state).history.wf(),
        final(state).alerts == old(state).alerts,
        history_map(final(state).history) == prune(
            record_prefix(history_map(old(state).history), disks@, disks@.len(), now),
            seen_keys(disks@),
            retention_cutoff(now as int),
        ),
{
    assert(HISTORY_RETENTION_DAYS as int * NANOS_PER_DAY as int == 2_678_400_000_000_000);
    let cutoff: i128 = now as i128 - HISTORY_RETENTION_DAYS as i128 * NANOS_PER_DAY as i128;
    let n = disks.len();
    let mut i: usize = 0;
    while i < n
        invariant
            n == disks@.len(),
            i <= n,
            state.history.wf(),
            state.alerts == old(state).alerts,
            cutoff == retention_cutoff(now as int),
            history_map(state.history) == record_prefix(
                history_map(old(state).history),
                disks@,
                i as nat,
                now,
            ),
        decreases n - i,
    {
        let disk = &disks[i];
        let key = mount_key(disk);
        let mut samples: Vec<DiskHistorySample> = match state.history.get(key.as_str()) {
            Some(v) => copy_samples(v),
            None => Vec::new(),
        };
        let ghost before = samples@;
        samples.push(disk_history_sample(disk, now));
        let kept = keep_recent_samples(&samples, cutoff);
        let sorted = sort_samples(&kept);
        let ghost prev_map = history_map(state.history);
        state.history.insert(key, sorted);
        proof {
            let m = record_prefix(history_map(old(state).history), disks@, i as nat, now);
            assert(prev_map == m);
            assert(before == if m.contains_key(key@) {
                m[key@]
            } else {
                Seq::empty()
            });
            assert(history_map(state.history) =~= m.insert(key@, sorted@));
        }
        i = i + 1;
    }
    let ghost recorded = history_map(state.history);
    let ghost keys = state.history.keys();
    let ghost seen = seen_keys(disks@);
    proof {
        state.history.lemma_view_keys();
        state.history.lemma_sizes();
    }
    let mut pruned: KeyedMap<Vec<DiskHistorySample>> = KeyedMap::new();
    let m = state.history.len();
    let mut k: usize = 0;
    while k < m
        invariant
            m == keys.len(),
            k <= m,
            state.history.wf(),
            state.history.keys() == keys,
            recorded == history_map(state.history),
            seen == seen_keys(disks@),
            pruned.wf(),
            forall|kk: Seq<char>| #[trigger] state.history@.contains_key(kk) <==> keys.contains(kk),
            forall|kk: Seq<char>|
                #[trigger] pruned@.contains_key(kk) <==> (exists|j: int|
                    0 <= j < k && keys[j] == kk) && (seen.contains(kk) || keep_recent(
                    recorded[kk],
                    cutoff as int,
                ).len() > 0),
            forall|kk: Seq<char>| #[trigger]
                pruned@.contains_key(kk) ==> pruned@[kk]@ == keep_recent(recorded[kk], cutoff as int),
        decreases m - k,
    {
        let key = state.history.key_at(k);
        proof {
            state.history.lemma_view_at(k as int);
        }
        let kept = keep_recent_samples(state.history.value_at(k), cutoff);
        let is_seen = key_is_seen(disks, key);
        if is_seen || kept.len() > 0 {
            pruned.insert(key.clone(), kept);
        }
        proof {
            assert forall|kk: Seq<char>| #[trigger] pruned@.contains_key(kk) <==> (exists|j: int|
                0 <= j < k + 1 && keys[j] == kk) && (seen.contains(kk) || keep_recent(
                recorded[kk],
                cutoff as int,
            ).len() > 0) by {
                if kk == keys[k as int] {
                    assert(keys[k as int] == kk);
                } else if exists|j: int| 0 <= j < k + 1 && keys[j] == kk {
                    let j = choose|j: int| 0 <= j < k + 1 && keys[j] == kk;
                    assert(j < k);
                }
            }
        }
        k = k + 1;
    }
    proof {
        pruned.lemma_view_keys();
        let target = prune(recorded, seen, cutoff as int);
        assert forall|kk: Seq<char>| #[trigger] history_map(pruned).contains_key(kk)
            == target.contains_key(kk) by {
            if recorded.contains_key(kk) {
                assert(keys.contains(kk));
                let j = choose|j: int| 0 <= j < keys.len() && keys[j] == kk;
                assert(0 <= j < m && keys[j] == kk);
            }
            if pruned@.contains_key(kk) {
                let j = choose|j: int| 0 <= j < m && keys[j] == kk;
                assert(keys.contains(kk));
            }
        }
        assert(history_map(pruned) =~= target);
    }
    state.history = pruned;
}

proof fn lemma_insert_pos(s: Seq<DiskHistorySample>, x: DiskHistorySample)
    requires
        time_ordered(s),
    ensures
        0 <= insert_pos(s, x) <= s.len(),
        forall|j: int| 0 <= j < insert_pos(s, x) ==> #[trigger] s[j].timestamp <= x.timestamp,
        forall|j: int| insert_pos(s, x) <= j < s.len() ==> #[trigger] s[j].timestamp > x.timestamp,
    decreases s.len(),
{
    if s.len() > 0 {
        if s.last().timestamp <= x.timestamp {
            assert forall|j: int| 0 <= j < s.len() implies #[trigger] s[j].timestamp
                <= x.timestamp by {
                assert(s[j].timestamp <= s[s.len() - 1].timestamp);
            }
        } else {
            let t = s.drop_last();
            assert(time_ordered(t));
            lemma_insert_pos(t, x);
            assert forall|j: int| insert_pos(s, x) <= j < s.len() implies #[trigger] s[j].timestamp
                > x.timestamp by {
                if j < s.len() - 1 {
                    assert(s[j] == t[j]);
                }
            }
            assert forall|j: int| 0 <= j < insert_pos(s, x) implies #[trigger] s[j].timestamp
                <= x.timestamp by {
                assert(s[j] == t[j]);
            }
        }
    }
}

/// Ordering by time gives samples in time order, and the same samples.
pub proof fn law_sort_by_time(s: Seq<DiskHistorySample>)
    ensures
        time_ordered(sort_by_time(s)),
        sort_by_time(s).to_multiset() == s.to_multiset(),
        sort_by_time(s).len() == s.len(),
    decreases s.len(),
{
    broadcast use vstd::seq_lib::group_to_multiset_ensures;

    if s.len() > 0 {
        let t = s.drop_last();
        let x = s.last();
        law_sort_by_time(t);
        let sorted = sort_by_time(t);
        lemma_insert_pos(sorted, x);
        let p = insert_pos(sorted, x);
        let r = sorted.insert(p, x);
        assert forall|i: int, j: int| 0 <= i <= j < r.len() implies r[i].timestamp
            <= r[j].timestamp by {
            if i < p && j < p {
                assert(r[i] == sorted[i] && r[j] == sorted[j]);
            } else if i < p && j == p {
                assert(r[i] == sorted[i]);
            } else if i < p {
                assert(r[i] == sorted[i] && r[j] == sorted[j - 1]);
            } else if i == p && j == p {
            } else if i == p {
                assert(r[j] == sorted[j - 1]);
            } else {
                assert(r[i] == sorted[i - 1] && r[j] == sorted[j - 1]);
            }
        }
        assert(r.remove(p) =~= sorted);
        assert(r[p] == x);
        assert(r.contains(x));
        assert(r.to_multiset().count(x) > 0);
        assert(r.to_multiset() =~= sorted.to_multiset().insert(x));
        assert(s =~= t.push(x));
        assert(s.to_multiset() =~= t.to_multiset().insert(x));
    }
}

proof fn lemma_keep_recent_props(s: Seq<DiskHistorySample>, cutoff: int)
    ensures
        forall|i: int|
            0 <= i < keep_recent(s, cutoff).len() ==> #[trigger] keep_recent(s, cutoff)[i].timestamp
                >= cutoff,
        forall|x: DiskHistorySample|
            s.contains(x) && x.timestamp >= cutoff ==> #[trigger] keep_recent(s, cutoff).contains(x),
        time_ordered(s) ==> time_ordered(keep_recent(s, cutoff)),
    decreases s.len(),
{
    broadcast use vstd::seq_lib::group_filter_ensures;

    let pred = |x: DiskHistorySample| x.timestamp >= cutoff;
    assert forall|i: int|
        0 <= i < keep_recent(s, cutoff).len() implies #[trigger] keep_recent(
        s,
        cutoff,
    )[i].timestamp >= cutoff by {
        s.lemma_filter_pred(pred, i);
    }
    assert forall|x: DiskHistorySample|
        s.contains(x) && x.timestamp >= cutoff implies #[trigger] keep_recent(s, cutoff).contains(
        x,
    ) by {
        let i = choose|i: int| 0 <= i < s.len() && s[i] == x;
        s.lemma_filter_contains(pred, i);
    }
    if s.len() > 0 {
        reveal_with_fuel(Seq::filter, 1);
        let t = s.drop_last();
        lemma_keep_recent_props(t, cutoff);
        if time_ordered(s) {
            assert(time_ordered(t));
            let kt = keep_recent(t, cutoff);
            if s.last().timestamp >= cutoff {
                let k = keep_recent(s, cutoff);
                assert(k == kt.push(s.last()));
                assert forall|i: int, j: int| 0 <= i <= j < k.len() implies k[i].timestamp
                    <= k[j].timestamp by {
                    if j == k.len() - 1 && i < j {
                        assert(k[i] == kt[i]);
                        t.lemma_filter_contains_rev(pred, kt[i]);
                        let m = choose|m: int| 0 <= m < t.len() && t[m] == kt[i];
                        assert(t[m] == s[m]);
                        assert(s[m].timestamp <= s[s.len() - 1].timestamp);
                    } else if j < k.len() - 1 {
                        assert(k[i] == kt[i] && k[j] == kt[j]);
                    }
                }
            }
        }
    }
}

proof fn lemma_recorded_prefix(
    h: Map<Seq<char>, Seq<DiskHistorySample>>,
    disks: Seq<DiskInfo>,
    n: nat,
    now: i64,
)
    requires
        n <= disks.len(),
    ensures
        forall|i: int|
            0 <= i < n ==> {
                let k = mount_key_text(#[trigger] disks[i]);
                let r = record_prefix(h, disks, n, now);
                &&& r.contains_key(k)
                &&& time_ordered(r[k])
                &&& r[k].contains(sample_of(disks[i], now))
            },
    decreases n,
{
    if n > 0 {
        lemma_recorded_prefix(h, disks, (n - 1) as nat, now);
        let m = record_prefix(h, disks, (n - 1) as nat, now);
        let d = disks[n - 1];
        let k = mount_key_text(d);
        let before = if m.contains_key(k) {
            m[k]
        } else {
            Seq::empty()
        };
        let pushed = before.push(sample_of(d, now));
        let cutoff = retention_cutoff(now as int);
        let kept = keep_recent(pushed, cutoff);
        lemma_keep_recent_props(pushed, cutoff);
        law_sort_by_time(kept);
        let sorted = sort_by_time(kept);
        assert(now >= cutoff);
        assert forall|x: DiskHistorySample| #[trigger] pushed.contains(x) && x.timestamp == now implies sorted.contains(x) by {
            broadcast use vstd::seq_lib::group_to_multiset_ensures;

            assert(kept.contains(x));
            assert(kept.to_multiset().count(x) > 0);
        }
        assert(pushed[pushed.len() - 1] == sample_of(d, now));
        let r = record_prefix(h, disks, n, now);
        assert forall|i: int| 0 <= i < n implies {
            let kk = mount_key_text(#[trigger] disks[i]);
            &&& r.contains_key(kk)
            &&& time_ordered(r[kk])
            &&& r[kk].contains(sample_of(disks[i], now))
        } by {
            let kk = mount_key_text(disks[i]);
            if kk == k {
                if i < n - 1 {
                    let j = choose|j: int| 0 <= j < m[kk].len() && m[kk][j] == sample_of(disks[i], now);
                    assert(pushed[j] == sample_of(disks[i], now));
                    assert(pushed.contains(sample_of(disks[i], now)));
                } else {
                    assert(pushed.contains(sample_of(disks[i], now)));
                }
            } else {
                assert(i < n - 1);
                assert(r[kk] == m[kk]);
            }
        }
    }
}

/// After recording, every sample kept is at most 31 days old, and every
/// measured mount point has its samples in time order, among them the
/// sample of each of its disks taken at `now`.
pub proof fn law_history_retention(
    h: Map<Seq<char>, Seq<DiskHistorySample>>,
    disks: Seq<DiskInfo>,
    now: i64,
)
    ensures
        ({
            let r = prune(
                record_prefix(h, disks, disks.len(), now),
                seen_keys(disks),
                retention_cutoff(now as int),
            );
            &&& forall|k: Seq<char>, i: int|
                #![trigger r[k][i]]
                r.contains_key(k) && 0 <= i < r[k].len() ==> r[k][i].timestamp >= retention_cutoff(
                    now as int,
                )
            &&& forall|i: int|
                0 <= i < disks.len() ==> {
                    let k = mount_key_text(#[trigger] disks[i]);
                    &&& r.contains_key(k)
                    &&& time_ordered(r[k])
                    &&& r[k].contains(sample_of(disks[i], now))
                }
        }),
{
    let m = record_prefix(h, disks, disks.len(), now);
    let cutoff = retention_cutoff(now as int);
    let r = prune(m, seen_keys(disks), cutoff);
    lemma_recorded_prefix(h, disks, disks.len(), now);
    assert forall|k: Seq<char>, i: int|
        r.contains_key(k) && 0 <= i < r[k].len() implies #[trigger] r[k][i].timestamp >= cutoff by {
        lemma_keep_recent_props(m[k], cutoff);
    }
    assert forall|i: int| 0 <= i < disks.len() implies {
        let k = mount_key_text(#[trigger] disks[i]);
        &&& r.contains_key(k)
        &&& time_ordered(r[k])
        &&& r[k].contains(sample_of(disks[i], now))
    } by {
        let k = mount_key_text(disks[i]);
        assert(seen_keys(disks).contains(k));
        lemma_keep_recent_props(m[k], cutoff);
        assert(now >= cutoff);
        assert(keep_recent(m[k], cutoff).contains(sample_of(disks[i], now)));
    }
}

} // verus!
