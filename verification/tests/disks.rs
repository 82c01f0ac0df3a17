use diskmon_mail::config::Config;
use diskmon_mail::df::{
    disk_from_df_parts, disk_from_volume, disks_from_df_plain, disks_from_df_typed,
    disks_from_volumes, is_excluded, is_pseudo_filesystem, kib_to_bytes, pseudo_filesystems,
    MountedVolume,
};
use diskmon_mail::disk::{alert_disks, mount_key, DiskInfo};
use diskmon_mail::report::alert_line;
use diskmon_mail::severity::AlertThresholds;

fn config(excluded: Vec<&str>) -> Config {
    Config {
        mail_enabled: false,
        smtp_server: "smtp.example.com".to_string(),
        smtp_port: 587,
        smtp_user: String::new(),
        smtp_pass: String::new(),
        email_from: "admin@example.com".to_string(),
        email_to: "alerts@example.com".to_string(),
        smtp_security: None,
        threshold_percent: None,
        warning_threshold_percent: None,
        critical_threshold_percent: None,
        emergency_threshold_percent: None,
        alert_cooldown_hours: None,
        recovery_threshold_percent: None,
        send_recovery_email: None,
        debug: None,
        friendly_name: None,
        excluded_disks: Some(excluded.into_iter().map(|s| s.to_string()).collect()),
    }
}

fn th() -> AlertThresholds {
    AlertThresholds { warning: 8500, critical: 9000, emergency: 9500 }
}

#[test]
fn pseudo_filesystems_are_listed() {
    assert_eq!(pseudo_filesystems().len(), 21);
    assert!(is_pseudo_filesystem("tmpfs"));
    assert!(is_pseudo_filesystem("nsfs"));
    assert!(!is_pseudo_filesystem("ext4"));
    assert!(!is_pseudo_filesystem("TMPFS"));
}

#[test]
fn exclusions_match_case_insensitively_after_trimming() {
    let cfg = config(vec!["  backup ", "", "nfs"]);
    assert!(is_excluded(&cfg, "/mnt/Backup", "/dev/sdb1"));
    assert!(is_excluded(&cfg, "/data", "server:/NFS/share"));
    assert!(!is_excluded(&cfg, "/data", "/dev/sdc1"));
    assert!(!is_excluded(&config(vec!["   "]), "/", "/dev/sda1"));
    let mut none = config(vec![]);
    none.excluded_disks = None;
    assert!(!is_excluded(&none, "/", "/dev/sda1"));
}

#[test]
fn df_row_becomes_a_disk() {
    let cfg = config(vec![]);
    let d = disk_from_df_parts(&cfg, "/dev/sda1", "ext4", "1000", "400", "600", "/").unwrap();
    assert_eq!(d.mount_point, "/");
    assert_eq!(d.display_name, "/ (/dev/sda1)");
    assert_eq!(d.file_system, "ext4");
    assert_eq!(d.total_space, 1_024_000);
    assert_eq!(d.used_space, 409_600);
    assert_eq!(d.available_space, 614_400);
    assert_eq!(mount_key(&d), "/|ext4");
}

#[test]
fn df_row_caps_used_and_available_at_total() {
    let cfg = config(vec![]);
    let d = disk_from_df_parts(&cfg, "fs", "xfs", "10", "20", "30", "/x").unwrap();
    assert_eq!(d.used_space, 10_240);
    assert_eq!(d.available_space, 10_240);
}

#[test]
fn df_row_is_dropped_when_not_a_disk() {
    let cfg = config(vec!["skip"]);
    assert!(disk_from_df_parts(&cfg, "tmpfs", "tmpfs", "10", "1", "9", "/run").is_none());
    assert!(disk_from_df_parts(&cfg, "/dev/sdb", "ext4", "10", "1", "9", "/skip").is_none());
    assert!(disk_from_df_parts(&cfg, "/dev/sdb", "ext4", "x", "1", "9", "/d").is_none());
    assert!(disk_from_df_parts(&cfg, "/dev/sdb", "ext4", "10", "-", "9", "/d").is_none());
    assert!(disk_from_df_parts(&cfg, "/dev/sdb", "ext4", "0", "0", "0", "/d").is_none());
}

#[test]
fn kib_counts_saturate() {
    assert_eq!(kib_to_bytes(2), 2048);
    assert_eq!(kib_to_bytes(u64::MAX), u64::MAX);
}

#[test]
fn typed_df_output_is_parsed() {
    let cfg = config(vec![]);
    let text = "Filesystem Type 1024-blocks Used Available Capacity Mounted on\n\
/dev/sda1 ext4 1000 400 600 40% /\n\
tmpfs tmpfs 100 0 100 0% /run\n\
/dev/sdb1 ext4 2000 1900 100 95% /mnt/my disk\n\
short line\n";
    let disks = disks_from_df_typed(&cfg, text);
    assert_eq!(disks.len(), 2);
    assert_eq!(disks[0].mount_point, "/");
    assert_eq!(disks[1].mount_point, "/mnt/my disk");
    assert_eq!(disks[1].display_name, "/mnt/my disk (/dev/sdb1)");
    assert_eq!(disks[1].used_space, 1900 * 1024);
    assert!(disks_from_df_typed(&cfg, "").is_empty());
}

#[test]
fn plain_df_output_skips_memory_and_kernel_file_systems() {
    let cfg = config(vec![]);
    let text = "Filesystem 1024-blocks Used Available Capacity Mounted on\r\n\
/dev/sda1 1000 400 600 40% /\r\n\
devtmpfs 10 0 10 0% /dev\r\n\
/dev/sdc1 10 1 9 10% /dev/shm\r\n\
/dev/sdd1 10 1 9 10% /srv\r\n";
    let disks = disks_from_df_plain(&cfg, text);
    assert_eq!(disks.len(), 2);
    assert_eq!(disks[0].file_system, "necunoscut");
    assert_eq!(disks[1].mount_point, "/srv");
}

#[test]
fn volumes_become_disks() {
    let cfg = config(vec![]);
    let v = MountedVolume {
        mount_point: Some("/".to_string()),
        name: Some("/dev/nvme0n1p2".to_string()),
        file_system: None,
        total_space: 100,
        available_space: 30,
    };
    let d = disk_from_volume(&cfg, &v).unwrap();
    assert_eq!(d.used_space, 70);
    assert_eq!(d.file_system, "necunoscut");
    assert_eq!(d.display_name, "/ (/dev/nvme0n1p2)");
    let unreadable = MountedVolume { mount_point: None, ..v.clone() };
    let empty = MountedVolume { total_space: 0, ..v.clone() };
    let over = MountedVolume { available_space: 500, ..v.clone() };
    assert!(disk_from_volume(&cfg, &unreadable).is_none());
    assert!(disk_from_volume(&cfg, &empty).is_none());
    assert_eq!(disk_from_volume(&cfg, &over).unwrap().used_space, 0);
    let all = disks_from_volumes(&cfg, &vec![unreadable, v, empty]);
    assert_eq!(all.len(), 1);
}

fn disk(mount: &str, used: u64) -> DiskInfo {
    DiskInfo {
        mount_point: mount.to_string(),
        display_name: format!("{} (/dev/x)", mount),
        file_system: "ext4".to_string(),
        total_space: 100,
        used_space: used,
        available_space: 100 - used,
    }
}

#[test]
fn alert_disks_keeps_order_of_disks_over_warning() {
    let disks = vec![disk("/a", 90), disk("/b", 10), disk("/c", 85)];
    let alerting = alert_disks(&disks, th());
    let names: Vec<&str> = alerting.iter().map(|d| d.mount_point.as_str()).collect();
    assert_eq!(names, vec!["/a", "/c"]);
}

#[test]
fn alert_lines_name_the_severity() {
    assert_eq!(alert_line(&disk("/a", 90), th()), "/a (/dev/x): 90.00% ocupat (CRITICAL)");
    assert_eq!(alert_line(&disk("/b", 10), th()), "/b (/dev/x): 10.00% ocupat (OK)");
}
