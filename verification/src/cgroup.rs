//! Container memory limits (cgroup v2, then v1) from the contents of the cgroup
//! control files.

use vstd::prelude::*;
use crate::text::{chars_of, chars_eq, parse_u64, parse_u64_spec, trim, trim_chars};

verus! {

/// Cgroup memory statistics.
#[derive(Debug, Clone, Copy, PartialEq, Eq)]
pub struct CgroupInfo {
    /// Memory limit in bytes.
    pub limit: u64,
    /// Current memory usage in bytes.
    pub usage: u64,
    /// Indicates whether a constrained container/cgroup limit is active.
    pub is_container: bool,
    /// Cgroup version detected (1 or 2).
    pub version: u8,
}

/// Cgroup v1 reports "unlimited" as a value near `i64::MAX`; anything from here up is no limit.
pub const CGROUP_V1_UNLIMITED_THRESHOLD: u64 = 0x7FFF_FFFF_0000_0000;

/// The number a control file holds (surrounding whitespace ignored), if it holds one.
pub open spec fn control_value(content: Option<Seq<char>>) -> Option<u64> {
    match content {
        Some(c) => parse_u64_spec(trim(c)),
        None => None,
    }
}

/// Usage figure from a control file, 0 when missing or unreadable.
pub open spec fn usage_value(content: Option<Seq<char>>) -> u64 {
    match control_value(content) {
        Some(u) => u,
        None => 0,
    }
}

/// The limit that cgroup v2's `memory.max` sets, if it is a real constraint below host RAM.
pub open spec fn v2_limit(max: Option<Seq<char>>, total_host_ram: u64) -> Option<u64> {
    match max {
        Some(m) => if trim(m) == "max"@ {
            None
        } else {
            match parse_u64_spec(trim(m)) {
                Some(l) => if 0 < l < total_host_ram {
                    Some(l)
                } else {
                    None
                },
                None => None,
            }
        },
        None => None,
    }
}

/// The limit that cgroup v1's `memory.limit_in_bytes` sets, if it is a real constraint:
/// positive, below the "unlimited" sentinel and below host RAM.
pub open spec fn v1_limit(limit: Option<Seq<char>>, total_host_ram: u64) -> Option<u64> {
    match control_value(limit) {
        Some(l) => if 0 < l < CGROUP_V1_UNLIMITED_THRESHOLD && l < total_host_ram {
            Some(l)
        } else {
            None
        },
        None => None,
    }
}

pub open spec fn opt_view(s: Option<&str>) -> Option<Seq<char>> {
    match s {
        Some(t) => Some(t@),
        None => None,
    }
}

/// What the cgroup files say: v2 wins when it sets a limit, else v1, else nothing.
pub open spec fn detect_cgroup_spec(
    v2_max: Option<Seq<char>>,
    v2_current: Option<Seq<char>>,
    v1_limit_file: Option<Seq<char>>,
    v1_usage: Option<Seq<char>>,
    total_host_ram: u64,
) -> Option<CgroupInfo> {
    match v2_limit(v2_max, total_host_ram) {
        Some(l) => Some(
            CgroupInfo { limit: l, usage: usage_value(v2_current), is_container: true, version: 2 },
        ),
        None => match v1_limit(v1_limit_file, total_host_ram) {
            Some(l) => Some(
                CgroupInfo { limit: l, usage: usage_value(v1_usage), is_container: true, version: 1 },
            ),
            None => None,
        },
    }
}

fn control_value_exec(content: Option<&str>) -> (r: Option<u64>)
    ensures
        r == control_value(opt_view(content)),
{
    match content {
        Some(c) => {
            let v = chars_of(c);
            let t = trim_chars(v.as_slice());
            parse_u64(t.as_slice())
        },
        None => None,
    }
}

fn usage_exec(content: Option<&str>) -> (r: u64)
    ensures
        r == usage_value(opt_view(content)),
{
    match control_value_exec(content) {
        Some(u) => u,
        None => 0,
    }
}

/// Detect cgroup memory limit and usage from the contents of the control files
/// (`None` for a file that could not be read): cgroup v2's `memory.max` and
/// `memory.current`, then cgroup v1's `memory.limit_in_bytes` and `memory.usage_in_bytes`.
pub fn detect_cgroup_from(
    v2_max: Option<&str>,
    v2_current: Option<&str>,
    v1_limit_file: Option<&str>,
    v1_usage: Option<&str>,
    total_host_ram: u64,
) -> (r: Option<CgroupInfo>)
    ensures
        r == detect_cgroup_spec(
            opt_view(v2_max),
            opt_view(v2_current),
            opt_view(v1_limit_file),
            opt_view(v1_usage),
            total_host_ram,
        ),
{
    // 1. cgroup v2
    match v2_max {
        Some(m) => {
            let v = chars_of(m);
            let t = trim_chars(v.as_slice());
            let max_word = chars_of("max");
            if !chars_eq(t.as_slice(), max_word.as_slice()) {
                match parse_u64(t.as_slice()) {
                    Some(limit) => {
                        if limit > 0 && limit < total_host_ram {
                            let usage = usage_exec(v2_current);
                            return Some(
                                CgroupInfo { limit, usage, is_container: true, version: 2 },
                            );
                        }
                    },
                    None => {},
                }
            }
        },
        None => {},
    }
    // 2. cgroup v1
    match control_value_exec(v1_limit_file) {
        Some(limit) => {
            if limit > 0 && limit < CGROUP_V1_UNLIMITED_THRESHOLD && limit < total_host_ram {
                let usage = usage_exec(v1_usage);
                return Some(CgroupInfo { limit, usage, is_container: true, version: 1 });
            }
        },
        None => {},
    }
    None
}

} // verus!
