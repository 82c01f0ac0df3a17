use vstd::prelude::*;

use crate::keyed_map::compare_keys;

verus! {

/// Description of the machine that a report is about.
#[derive(Clone, Debug)]
pub struct SystemInfo {
    pub os_name: String,
    pub os_version: String,
    pub architecture: String,
    pub hostname: String,
    pub is_virtualized: bool,
}

/// Label of a processor architecture, by the name the compiler gives it.
pub open spec fn architecture_text(target_arch: Seq<char>) -> Seq<char> {
    if target_arch == "x86_64"@ {
        "64-bit"@
    } else if target_arch == "x86"@ {
        "32-bit"@
    } else if target_arch == "aarch64"@ {
        "ARM64"@
    } else if target_arch == "arm"@ {
        "ARM32"@
    } else {
        "Unknown"@
    }
}

/// Label of a processor architecture.
pub fn architecture_label(target_arch: &str) -> (r: &'static str)
    ensures
        r@ == architecture_text(target_arch@),
{
    if compare_keys(target_arch, "x86_64") == 0 {
        "64-bit"
    } else if compare_keys(target_arch, "x86") == 0 {
        "32-bit"
    } else if compare_keys(target_arch, "aarch64") == 0 {
        "ARM64"
    } else if compare_keys(target_arch, "arm") == 0 {
        "ARM32"
    } else {
        "Unknown"
    }
}

/// Whether the machine runs virtualized: what the platform's probe found,
/// and no on a platform without a probe.
pub fn get_is_virtualized(platform_probe: Option<bool>) -> (r: bool)
    ensures
        r == (platform_probe == Some(true)),
{
    match platform_probe {
        Some(b) => b,
        None => false,
    }
}

fn text_or(value: Option<String>, fallback: &str) -> (r: String)
    ensures
        r@ == match value {
            Some(v) => v@,
            None => fallback@,
        },
{
    match value {
        Some(v) => v,
        None => String::from_str(fallback),
    }
}

/// Machine description from what the system reported: missing names are
/// replaced by `unknown`, `Unknown OS` and `Unknown Version`.
pub fn system_info_from(
    hostname: Option<String>,
    os_name: Option<String>,
    os_version: Option<String>,
    target_arch: &str,
    platform_probe: Option<bool>,
) -> (r: SystemInfo)
    ensures
        r.hostname@ == match hostname {
            Some(h) => h@,
            None => "unknown"@,
        },
        r.os_name@ == match os_name {
            Some(n) => n@,
            None => "Unknown OS"@,
        },
        r.os_version@ == match os_version {
            Some(v) => v@,
            None => "Unknown Version"@,
        },
        r.architecture@ == architecture_text(target_arch@),
        r.is_virtualized == (platform_probe == Some(true)),
{
    SystemInfo {
        os_name: text_or(os_name, "Unknown OS"),
        os_version: text_or(os_version, "Unknown Version"),
        architecture: String::from_str(architecture_label(target_arch)),
        hostname: text_or(hostname, "unknown"),
        is_virtualized: get_is_virtualized(platform_probe),
    }
}

} // verus!
