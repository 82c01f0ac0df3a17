use vstd::prelude::*;

use crate::config::Config;
use crate::disk::{DiskInfo, DiskView};
use crate::keyed_map::compare_keys;
use crate::text::{
    contains, contains_text, join_from, join_words, lines_of, parse_u64, parse_u64_of,
    split_lines, split_words, starts_with, starts_with_text, to_upper, trim_text, trimmed,
    upper_text, words,
};

verus! {

/// File system types that hold no user data and are never monitored.
pub open spec fn pseudo_filesystem_names() -> Seq<Seq<char>> {
    seq![
        "tmpfs"@,
        "devtmpfs"@,
        "proc"@,
        "sysfs"@,
        "cgroup"@,
        "cgroup2"@,
        "overlay"@,
        "squashfs"@,
        "securityfs"@,
        "rpc_pipefs"@,
        "fusectl"@,
        "mqueue"@,
        "hugetlbfs"@,
        "autofs"@,
        "binfmt_misc"@,
        "debugfs"@,
        "tracefs"@,
        "configfs"@,
        "pstore"@,
        "efivarfs"@,
        "nsfs"@,
    ]
}

/// The file system types that are never monitored.
pub fn pseudo_filesystems() -> (r: Vec<&'static str>)
    ensures
        r@.len() == pseudo_filesystem_names().len(),
        forall|i: int| 0 <= i < r@.len() ==> #[trigger] r@[i]@ == pseudo_filesystem_names()[i],
{
    let mut r: Vec<&'static str> = Vec::new();
    r.push("tmpfs");
    r.push("devtmpfs");
    r.push("proc");
    r.push("sysfs");
    r.push("cgroup");
    r.push("cgroup2");
    r.push("overlay");
    r.push("squashfs");
    r.push("securityfs");
    r.push("rpc_pipefs");
    r.push("fusectl");
    r.push("mqueue");
    r.push("hugetlbfs");
    r.push("autofs");
    r.push("binfmt_misc");
    r.push("debugfs");
    r.push("tracefs");
    r.push("configfs");
    r.push("pstore");
    r.push("efivarfs");
    r.push("nsfs");
    r
}

/// Whether a file system type is one that is never monitored.
pub fn is_pseudo_filesystem(fstype: &str) -> (r: bool)
    ensures
        r == pseudo_filesystem_names().contains(fstype@),
{
    let names = pseudo_filesystems();
    let n = names.len();
    let mut i: usize = 0;
    while i < n
        invariant
            n == names@.len(),
            n == pseudo_filesystem_names().len(),
            forall|j: int| 0 <= j < n ==> #[trigger] names@[j]@ == pseudo_filesystem_names()[j],
            i <= n,
            forall|j: int| 0 <= j < i ==> pseudo_filesystem_names()[j] != fstype@,
        decreases n - i,
    {
        if compare_keys(names[i], fstype) == 0 {
            return true;
        }
        i = i + 1;
    }
    false
}

/// Whether one entry of the exclusion list matches a mount point or the
/// name of its file system: the entry, trimmed and not blank, occurs in
/// either of them, all in upper case.
pub open spec fn excludes(item: Seq<char>, mount_point: Seq<char>, filesystem: Seq<char>) -> bool {
    let t = trimmed(item);
    t.len() > 0 && (contains_text(upper_text(mount_point), upper_text(t)) || contains_text(
        upper_text(filesystem),
        upper_text(t),
    ))
}

/// Whether the configuration excludes a mount point from monitoring.
pub open spec fn excluded_by(cfg: Config, mount_point: Seq<char>, filesystem: Seq<char>) -> bool {
    match cfg.excluded_disks {
        Some(list) => exists|i: int|
            0 <= i < list@.len() && #[trigger] excludes(list@[i]@, mount_point, filesystem),
        None => false,
    }
}

fn item_excludes(item: &str, mount_point: &str, filesystem: &str) -> (r: bool)
    ensures
        r == excludes(item@, mount_point@, filesystem@),
{
    let t = trim_text(item);
    if t.unicode_len() == 0 {
        return false;
    }
    let needle = to_upper(t.as_str());
    let mp = to_upper(mount_point);
    let fs = to_upper(filesystem);
    contains(mp.as_str(), needle.as_str()) || contains(fs.as_str(), needle.as_str())
}

/// Whether the configuration excludes a mount point from monitoring.
pub fn is_excluded(cfg: &Config, mount_point: &str, filesystem: &str) -> (r: bool)
    ensures
        r == excluded_by(*cfg, mount_point@, filesystem@),
{
    match &cfg.excluded_disks {
        Some(list) => {
            let n = list.len();
            let mut i: usize = 0;
            while i < n
                invariant
                    n == list@.len(),
                    cfg.excluded_disks == Some(*list),
                    i <= n,
                    forall|j: int| 0 <= j < i ==> !excludes(list@[j]@, mount_point@, filesystem@),
                decreases n - i,
            {
                if item_excludes(list[i].as_str(), mount_point, filesystem) {
                    assert(excludes(list@[i as int]@, mount_point@, filesystem@));
                    assert(cfg.excluded_disks->0@ == list@);
                    assert(excluded_by(*cfg, mount_point@, filesystem@));
                    return true;
                }
                i = i + 1;
            }
            false
        },
        None => false,
    }
}

/// Bytes in a count of KiB, capped at the largest 64-bit number.
pub open spec fn kib_bytes(k: u64) -> u64 {
    if k * 1024 > u64::MAX {
        u64::MAX
    } else {
        (k * 1024) as u64
    }
}

/// The smaller of two numbers.
pub open spec fn min_u64(a: u64, b: u64) -> u64 {
    if a <= b {
        a
    } else {
        b
    }
}

/// The disk that one row of `df` output describes, from its fields: none
/// for a pseudo file system, an excluded mount point, a size that is not a
/// number, or a total of zero. Used and available space are capped at the
/// total.
pub open spec fn df_disk(
    cfg: Config,
    filesystem: Seq<char>,
    fstype: Seq<char>,
    total_k: Seq<char>,
    used_k: Seq<char>,
    available_k: Seq<char>,
    mount_point: Seq<char>,
) -> Option<DiskView> {
    if pseudo_filesystem_names().contains(fstype) || excluded_by(cfg, mount_point, filesystem) {
        None
    } else {
        match (parse_u64_of(total_k), parse_u64_of(used_k), parse_u64_of(available_k)) {
            (Some(t), Some(u), Some(a)) => {
                let total = kib_bytes(t);
                if total == 0 {
                    None
                } else {
                    Some(
                        DiskView {
                            mount_point: mount_point,
                            display_name: mount_point + " ("@ + filesystem + ")"@,
                            file_system: fstype,
                            total_space: total,
                            used_space: min_u64(kib_bytes(u), total),
                            available_space: min_u64(kib_bytes(a), total),
                        },
                    )
                }
            },
            _ => None,
        }
    }
}

/// Bytes in a count of KiB, capped at the largest 64-bit number.
pub fn kib_to_bytes(k: u64) -> (r: u64)
    ensures
        r == kib_bytes(k),
{
    if k > u64::MAX / 1024 {
        u64::MAX
    } else {
        k * 1024
    }
}

fn display_of(mount_point: &str, filesystem: &str) -> (r: String)
    ensures
        r@ == mount_point@ + " ("@ + filesystem@ + ")"@,
{
    let mut r = String::from_str(mount_point);
    r.append(" (");
    r.append(filesystem);
    r.append(")");
    r
}

/// The disk that one row of `df` output describes, from its fields.
pub fn disk_from_df_parts(
    cfg: &Config,
    filesystem: &str,
    fstype: &str,
    total_k: &str,
    used_k: &str,
    available_k: &str,
    mount_point: &str,
) -> (r: Option<DiskInfo>)
    ensures
        match r {
            Some(d) => df_disk(*cfg, filesystem@, fstype@, total_k@, used_k@, available_k@, mount_point@)
                == Some(d@),
            None => df_disk(*cfg, filesystem@, fstype@, total_k@, used_k@, available_k@, mount_point@)
                is None,
        },
{
    if is_pseudo_filesystem(fstype) || is_excluded(cfg, mount_point, filesystem) {
        return None;
    }
    let t = match parse_u64(total_k) {
        Some(t) => t,
        None => return None,
    };
    let u = match parse_u64(used_k) {
        Some(u) => u,
        None => return None,
    };
    let a = match parse_u64(available_k) {
        Some(a) => a,
        None => return None,
    };
    let total = kib_to_bytes(t);
    let used = kib_to_bytes(u);
    let available = kib_to_bytes(a);
    if total == 0 {
        return None;
    }
    let used = if used <= total {
        used
    } else {
        total
    };
    let available = if available <= total {
        available
    } else {
        total
    };
    Some(
        DiskInfo {
            mount_point: String::from_str(mount_point),
            display_name: display_of(mount_point, filesystem),
            file_system: String::from_str(fstype),
            total_space: total,
            used_space: used,
            available_space: available,
        },
    )
}

/// The disk that a row of `df -T -P` output describes: file system,
/// type, size, used and available KiB, capacity, then the mount point,
/// which may hold spaces. None for a row of fewer than seven fields.
pub open spec fn typed_row(cfg: Config, line: Seq<char>) -> Option<DiskView> {
    let w = words(line);
    if w.len() < 7 {
        None
    } else {
        df_disk(cfg, w[0], w[1], w[2], w[3], w[4], join_words(w.subrange(6, w.len() as int)))
    }
}

/// The disk that a row of `df -k -P` output describes: file system, size,
/// used and available KiB, capacity, then the mount point. None for a row
/// of fewer than six fields, and for memory and kernel file systems,
/// recognised by name (`tmpfs`, `devtmpfs`) or mount point (`/sys`,
/// `/proc`, `/dev`); the type is unknown.
pub open spec fn plain_row(cfg: Config, line: Seq<char>) -> Option<DiskView> {
    let w = words(line);
    if w.len() < 6 {
        None
    } else {
        let fs = w[0];
        let mp = join_words(w.subrange(5, w.len() as int));
        if starts_with_text(fs, "tmpfs"@) || starts_with_text(fs, "devtmpfs"@) || starts_with_text(
            mp,
            "/sys"@,
        ) || starts_with_text(mp, "/proc"@) || starts_with_text(mp, "/dev"@) {
            None
        } else {
            df_disk(cfg, fs, "necunoscut"@, w[1], w[2], w[3], mp)
        }
    }
}

/// The values present in a sequence of options, in order.
pub open spec fn present(rows: Seq<Option<DiskView>>) -> Seq<DiskView>
    decreases rows.len(),
{
    if rows.len() == 0 {
        Seq::empty()
    } else {
        let prev = present(rows.drop_last());
        match rows.last() {
            Some(d) => prev.push(d),
            None => prev,
        }
    }
}

/// The lines of a command's output after its header line.
pub open spec fn body_lines(text: Seq<char>) -> Seq<Seq<char>> {
    let ls = lines_of(text);
    if ls.len() == 0 {
        ls
    } else {
        ls.drop_first()
    }
}

/// The disks that `df -T -P` output lists, in order.
pub open spec fn typed_disks(cfg: Config, text: Seq<char>) -> Seq<DiskView> {
    present(body_lines(text).map_values(|l: Seq<char>| typed_row(cfg, l)))
}

/// The disks that `df -k -P` output lists, in order.
pub open spec fn plain_disks(cfg: Config, text: Seq<char>) -> Seq<DiskView> {
    present(body_lines(text).map_values(|l: Seq<char>| plain_row(cfg, l)))
}

proof fn lemma_words_tail(ws: &Vec<String>, line: Seq<char>, from: int)
    requires
        ws@.len() == words(line).len(),
        forall|i: int| 0 <= i < ws@.len() ==> #[trigger] ws@[i]@ == words(line)[i],
        0 <= from <= ws@.len(),
    ensures
        ws@.subrange(from, ws@.len() as int).map_values(|w: String| w@) == words(line).subrange(
            from,
            words(line).len() as int,
        ),
{
    assert(ws@.subrange(from, ws@.len() as int).map_values(|w: String| w@) =~= words(
        line,
    ).subrange(from, words(line).len() as int));
}

/// The disk that a row of `df -T -P` output describes.
pub fn df_typed_row(cfg: &Config, line: &str) -> (r: Option<DiskInfo>)
    ensures
        match r {
            Some(d) => typed_row(*cfg, line@) == Some(d@),
            None => typed_row(*cfg, line@) is None,
        },
{
    let w = split_words(line);
    if w.len() < 7 {
        return None;
    }
    let mount_point = join_from(&w, 6);
    proof {
        lemma_words_tail(&w, line@, 6);
    }
    disk_from_df_parts(
        cfg,
        w[0].as_str(),
        w[1].as_str(),
        w[2].as_str(),
        w[3].as_str(),
        w[4].as_str(),
        mount_point.as_str(),
    )
}

/// The disk that a row of `df -k -P` output describes.
pub fn df_plain_row(cfg: &Config, line: &str) -> (r: Option<DiskInfo>)
    ensures
        match r {
            Some(d) => plain_row(*cfg, line@) == Some(d@),
            None => plain_row(*cfg, line@) is None,
        },
{
    let w = split_words(line);
    if w.len() < 6 {
        return None;
    }
    let filesystem = w[0].as_str();
    let mount_point = join_from(&w, 5);
    proof {
        lemma_words_tail(&w, line@, 5);
    }
    if starts_with(filesystem, "tmpfs") || starts_with(filesystem, "devtmpfs") || starts_with(
        mount_point.as_str(),
        "/sys",
    ) || starts_with(mount_point.as_str(), "/proc") || starts_with(mount_point.as_str(), "/dev") {
        return None;
    }
    disk_from_df_parts(
        cfg,
        filesystem,
        "necunoscut",
        w[1].as_str(),
        w[2].as_str(),
        w[3].as_str(),
        mount_point.as_str(),
    )
}

/// The disks that `df -T -P` output lists (`plain` false) or that
/// `df -k -P` output lists (`plain` true), in order; the header line is
/// skipped.
fn disks_from_df(cfg: &Config, text: &str, plain: bool) -> (r: Vec<DiskInfo>)
    ensures
        !plain ==> r@.map_values(|d: DiskInfo| d@) == typed_disks(*cfg, text@),
        plain ==> r@.map_values(|d: DiskInfo| d@) == plain_disks(*cfg, text@),
{
    let lines = split_lines(text);
    let ghost body = body_lines(text@);
    let ghost rows = if plain {
        body.map_values(|l: Seq<char>| plain_row(*cfg, l))
    } else {
        body.map_values(|l: Seq<char>| typed_row(*cfg, l))
    };
    let n = lines.len();
    let mut r: Vec<DiskInfo> = Vec::new();
    if n == 0 {
        assert(rows =~= Seq::<Option<DiskView>>::empty());
        assert(r@.map_values(|d: DiskInfo| d@) =~= present(rows));
        return r;
    }
    let mut i: usize = 1;
    assert(rows.take(0) =~= Seq::<Option<DiskView>>::empty());
    assert(r@.map_values(|d: DiskInfo| d@) =~= present(rows.take(0)));
    while i < n
        invariant
            n == lines@.len(),
            n == lines_of(text@).len(),
            n >= 1,
            forall|j: int| 0 <= j < n ==> #[trigger] lines@[j]@ == lines_of(text@)[j],
            body == body_lines(text@),
            body == lines_of(text@).drop_first(),
            rows == (if plain {
                body.map_values(|l: Seq<char>| plain_row(*cfg, l))
            } else {
                body.map_values(|l: Seq<char>| typed_row(*cfg, l))
            }),
            1 <= i <= n,
            r@.map_values(|d: DiskInfo| d@) == present(rows.take(i - 1)),
        decreases n - i,
    {
        let row = if plain {
            df_plain_row(cfg, lines[i].as_str())
        } else {
            df_typed_row(cfg, lines[i].as_str())
        };
        proof {
            assert(rows.take(i as int).drop_last() =~= rows.take(i - 1));
            assert(body[i - 1] == lines@[i as int]@);
            assert(rows.take(i as int).last() == rows[i - 1]);
        }
        match row {
            Some(d) => {
                r.push(d);
                assert(r@.map_values(|d: DiskInfo| d@) =~= present(rows.take(i - 1)).push(d@));
            },
            None => {},
        }
        i = i + 1;
    }
    assert(rows.take(n - 1) =~= rows);
    r
}

/// The disks that `df -T -P` output lists, in order.
pub fn disks_from_df_typed(cfg: &Config, text: &str) -> (r: Vec<DiskInfo>)
    ensures
        r@.map_values(|d: DiskInfo| d@) == typed_disks(*cfg, text@),
{
    disks_from_df(cfg, text, false)
}

/// The disks that `df -k -P` output lists, in order.
pub fn disks_from_df_plain(cfg: &Config, text: &str) -> (r: Vec<DiskInfo>)
    ensures
        r@.map_values(|d: DiskInfo| d@) == plain_disks(*cfg, text@),
{
    disks_from_df(cfg, text, true)
}

/// A mounted volume as the operating system reports it: a mount point and
/// names that may not be valid Unicode (then absent), and sizes in bytes.
#[derive(Clone, Debug)]
pub struct MountedVolume {
    pub mount_point: Option<String>,
    pub name: Option<String>,
    pub file_system: Option<String>,
    pub total_space: u64,
    pub available_space: u64,
}

/// The disk that a reported volume stands for: none without a readable
/// mount point, when excluded, or with a total of zero. Used space is the
/// total less the available space; an unreadable name counts as empty and
/// an unreadable type as `necunoscut`.
pub open spec fn volume_disk(cfg: Config, v: MountedVolume) -> Option<DiskView> {
    match v.mount_point {
        None => None,
        Some(mp) => {
            let name = match v.name {
                Some(n) => n@,
                None => ""@,
            };
            if excluded_by(cfg, mp@, name) || v.total_space == 0 {
                None
            } else {
                Some(
                    DiskView {
                        mount_point: mp@,
                        display_name: mp@ + " ("@ + name + ")"@,
                        file_system: match v.file_system {
                            Some(f) => f@,
                            None => "necunoscut"@,
                        },
                        total_space: v.total_space,
                        used_space: if v.available_space <= v.total_space {
                            (v.total_space - v.available_space) as u64
                        } else {
                            0
                        },
                        available_space: v.available_space,
                    },
                )
            }
        },
    }
}

/// The disk that a reported volume stands for.
pub fn disk_from_volume(cfg: &Config, v: &MountedVolume) -> (r: Option<DiskInfo>)
    ensures
        match r {
            Some(d) => volume_disk(*cfg, *v) == Some(d@),
            None => volume_disk(*cfg, *v) is None,
        },
{
    let mp = match &v.mount_point {
        Some(mp) => mp,
        None => return None,
    };
    let name: &str = match &v.name {
        Some(n) => n.as_str(),
        None => "",
    };
    if is_excluded(cfg, mp.as_str(), name) {
        return None;
    }
    if v.total_space == 0 {
        return None;
    }
    let used = if v.available_space <= v.total_space {
        v.total_space - v.available_space
    } else {
        0
    };
    let file_system = match &v.file_system {
        Some(f) => f.clone(),
        None => String::from_str("necunoscut"),
    };
    Some(
        DiskInfo {
            mount_point: mp.clone(),
            display_name: display_of(mp.as_str(), name),
            file_system,
            total_space: v.total_space,
            used_space: used,
            available_space: v.available_space,
        },
    )
}

/// The disks that the reported volumes stand for, in order.
pub fn disks_from_volumes(cfg: &Config, volumes: &Vec<MountedVolume>) -> (r: Vec<DiskInfo>)
    ensures
        r@.map_values(|d: DiskInfo| d@) == present(volumes@.map_values(|v: MountedVolume| volume_disk(*cfg, v))),
{
    let ghost rows = volumes@.map_values(|v: MountedVolume| volume_disk(*cfg, v));
    let n = volumes.len();
    let mut r: Vec<DiskInfo> = Vec::new();
    let mut i: usize = 0;
    assert(rows.take(0) =~= Seq::<Option<DiskView>>::empty());
    assert(r@.map_values(|d: DiskInfo| d@) =~= present(rows.take(0)));
    while i < n
        invariant
            n == volumes@.len(),
            rows == volumes@.map_values(|v: MountedVolume| volume_disk(*cfg, v)),
            i <= n,
            r@.map_values(|d: DiskInfo| d@) == present(rows.take(i as int)),
        decreases n - i,
    {
        let row = disk_from_volume(cfg, &volumes[i]);
        proof {
            assert(rows.take(i + 1).drop_last() =~= rows.take(i as int));
            assert(rows.take(i + 1).last() == rows[i as int]);
        }
        match row {
            Some(d) => {
                r.push(d);
                assert(r@.map_values(|d: DiskInfo| d@) =~= present(rows.take(i as int)).push(d@));
            },
            None => {},
        }
        i = i + 1;
    }
    assert(rows.take(n as int) =~= rows);
    r
}

/// Each value present in a sequence of options comes from one of them.
pub proof fn lemma_present_source(rows: Seq<Option<DiskView>>, i: int)
    requires
        0 <= i < present(rows).len(),
    ensures
        exists|j: int| 0 <= j < rows.len() && rows[j] == Some(#[trigger] present(rows)[i]),
    decreases rows.len(),
{
    let prev = present(rows.drop_last());
    if i < prev.len() {
        lemma_present_source(rows.drop_last(), i);
        let j = choose|j: int| 0 <= j < rows.drop_last().len() && rows.drop_last()[j] == Some(prev[i]);
        assert(rows[j] == Some(present(rows)[i]));
    } else {
        assert(rows[rows.len() - 1] == Some(present(rows)[i]));
    }
}

/// Whether a disk record has a positive size, with used and available
/// space within it.
pub open spec fn within_size(d: DiskView) -> bool {
    d.total_space > 0 && d.used_space <= d.total_space && d.available_space <= d.total_space
}

/// A disk read from a row of `df` has a positive size with used and
/// available space within it; a pseudo file system or an excluded mount
/// point never gives one.
pub proof fn law_df_disk(
    cfg: Config,
    filesystem: Seq<char>,
    fstype: Seq<char>,
    total_k: Seq<char>,
    used_k: Seq<char>,
    available_k: Seq<char>,
    mount_point: Seq<char>,
)
    ensures
        df_disk(cfg, filesystem, fstype, total_k, used_k, available_k, mount_point) matches Some(d)
            ==> within_size(d),
        pseudo_filesystem_names().contains(fstype) ==> df_disk(
            cfg,
            filesystem,
            fstype,
            total_k,
            used_k,
            available_k,
            mount_point,
        ) is None,
        excluded_by(cfg, mount_point, filesystem) ==> df_disk(
            cfg,
            filesystem,
            fstype,
            total_k,
            used_k,
            available_k,
            mount_point,
        ) is None,
{
}

/// Every disk read from `df` output, in either layout, has a positive size
/// with used and available space within it.
pub proof fn law_df_output(cfg: Config, text: Seq<char>)
    ensures
        forall|i: int|
            0 <= i < typed_disks(cfg, text).len() ==> within_size(
                #[trigger] typed_disks(cfg, text)[i],
            ),
        forall|i: int|
            0 <= i < plain_disks(cfg, text).len() ==> within_size(
                #[trigger] plain_disks(cfg, text)[i],
            ),
{
    let body = body_lines(text);
    let typed = body.map_values(|l: Seq<char>| typed_row(cfg, l));
    let plain = body.map_values(|l: Seq<char>| plain_row(cfg, l));
    assert forall|i: int| 0 <= i < typed_disks(cfg, text).len() implies within_size(
        #[trigger] typed_disks(cfg, text)[i],
    ) by {
        lemma_present_source(typed, i);
        let j = choose|j: int| 0 <= j < typed.len() && typed[j] == Some(present(typed)[i]);
        let w = words(body[j]);
        assert(typed[j] == typed_row(cfg, body[j]));
        if w.len() >= 7 {
            law_df_disk(cfg, w[0], w[1], w[2], w[3], w[4], join_words(w.subrange(6, w.len() as int)));
        }
    }
    assert forall|i: int| 0 <= i < plain_disks(cfg, text).len() implies within_size(
        #[trigger] plain_disks(cfg, text)[i],
    ) by {
        lemma_present_source(plain, i);
        let j = choose|j: int| 0 <= j < plain.len() && plain[j] == Some(present(plain)[i]);
        let w = words(body[j]);
        assert(plain[j] == plain_row(cfg, body[j]));
        if w.len() >= 6 {
            law_df_disk(cfg, w[0], "necunoscut"@, w[1], w[2], w[3], join_words(w.subrange(5, w.len() as int)));
        }
    }
}

/// A disk read from a reported volume has a positive size and used space
/// within it; when the available space is within the size too, used and
/// available space add up to it. An excluded mount point never gives one.
pub proof fn law_volume_disk(cfg: Config, v: MountedVolume)
    ensures
        volume_disk(cfg, v) matches Some(d) ==> d.total_space > 0 && d.used_space
            <= d.total_space,
        volume_disk(cfg, v) matches Some(d) ==> (d.available_space <= d.total_space ==> d.used_space
            + d.available_space == d.total_space),
        v.mount_point matches Some(mp) && excluded_by(
            cfg,
            mp@,
            match v.name {
                Some(n) => n@,
                None => ""@,
            },
        ) ==> volume_disk(cfg, v) is None,
{
}

} // verus!
