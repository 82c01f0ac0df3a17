use vstd::prelude::*;

use crate::severity::{UsageRatio, AlertThresholds, AlertSeverity, severity_of, severity_for_percent};

verus! {

/// Space on one mounted filesystem, in bytes.
#[derive(Clone, Debug)]
pub struct DiskInfo {
    pub mount_point: String,
    pub display_name: String,
    pub file_system: String,
    pub total_space: u64,
    pub used_space: u64,
    pub available_space: u64,
}

/// What a disk record holds, as plain values.
pub struct DiskView {
    pub mount_point: Seq<char>,
    pub display_name: Seq<char>,
    pub file_system: Seq<char>,
    pub total_space: u64,
    pub used_space: u64,
    pub available_space: u64,
}

impl View for DiskInfo {
    type V = DiskView;

    open spec fn view(&self) -> DiskView {
        DiskView {
            mount_point: self.mount_point@,
            display_name: self.display_name@,
            file_system: self.file_system@,
            total_space: self.total_space,
            used_space: self.used_space,
            available_space: self.available_space,
        }
    }
}

/// Used space as a share of the total.
pub open spec fn used_of(d: DiskInfo) -> UsageRatio {
    UsageRatio { used: d.used_space, total: d.total_space }
}

/// Available space as a share of the total.
pub open spec fn free_of(d: DiskInfo) -> UsageRatio {
    UsageRatio { used: d.available_space, total: d.total_space }
}

/// Key under which a mount point is tracked: `mount_point|file_system`.
pub open spec fn mount_key_text(d: DiskInfo) -> Seq<char> {
    d.mount_point@ + "|"@ + d.file_system@
}

/// Severity of a disk under the thresholds.
pub open spec fn disk_severity(d: DiskInfo, th: AlertThresholds) -> Option<AlertSeverity> {
    severity_of(used_of(d), th)
}

impl DiskInfo {
    /// Used space as a share of the total.
    pub fn used_ratio(&self) -> (r: UsageRatio)
        ensures
            r == used_of(*self),
    {
        UsageRatio { used: self.used_space, total: self.total_space }
    }

    /// Available space as a share of the total.
    pub fn free_ratio(&self) -> (r: UsageRatio)
        ensures
            r == free_of(*self),
    {
        UsageRatio { used: self.available_space, total: self.total_space }
    }
}

/// Key under which a mount point is tracked.
pub fn mount_key(disk: &DiskInfo) -> (r: String)
    ensures
        r@ == mount_key_text(*disk),
{
    let mut key = disk.mount_point.clone();
    key.append("|");
    key.append(disk.file_system.as_str());
    key
}

/// Disks whose usage reaches at least the warning severity, in order.
pub open spec fn alerting(disks: Seq<DiskInfo>, th: AlertThresholds) -> Seq<DiskInfo> {
    disks.filter(|d: DiskInfo| disk_severity(d, th) is Some)
}

/// The disks whose usage reaches a severity, in their order.
pub fn alert_disks<'a>(disks: &'a [DiskInfo], thresholds: AlertThresholds) -> (r: Vec<&'a DiskInfo>)
    ensures
        r@.map_values(|d: &DiskInfo| *d) == alerting(disks@, thresholds),
{
    let mut r: Vec<&'a DiskInfo> = Vec::new();
    let n = disks.len();
    let mut i: usize = 0;
    while i < n
        invariant
            n == disks@.len(),
            i <= n,
            r@.map_values(|d: &DiskInfo| *d) == alerting(disks@.take(i as int), thresholds),
        decreases n - i,
    {
        let d = &disks[i];
        proof {
            reveal_with_fuel(Seq::filter, 1);
            assert(disks@.take(i + 1).drop_last() =~= disks@.take(i as int));
        }
        if severity_for_percent(d.used_ratio(), thresholds).is_some() {
            r.push(d);
            assert(r@.map_values(|d: &DiskInfo| *d) =~= alerting(disks@.take(i as int), thresholds).push(*d));
        }
        i = i + 1;
    }
    assert(disks@.take(n as int) =~= disks@);
    r
}

} // verus!
