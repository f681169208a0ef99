//! Descriptive machine details.
use vstd::prelude::*;
use crate::utils::{format_bytes, format_bytes_spec};

verus! {

#[derive(Debug)]
pub struct InfoState {
    pub os_name: String,
    pub os_version: String,
    pub kernel: String,
    pub hostname: String,
    pub cpu_brand: String,
    pub cpu_cores: usize,
    pub total_ram: String,
}

/// A reported value, or the text shown when the system reported none.
pub open spec fn or_text(v: Option<String>, fallback: Seq<char>) -> Seq<char> {
    match v {
        Some(s) => s@,
        None => fallback,
    }
}

fn or_unknown(v: Option<String>) -> (s: String)
    ensures
        s@ == or_text(v, "Unknown"@),
{
    match v {
        Some(s) => s,
        None => String::from_str("Unknown"),
    }
}

impl InfoState {
    /// Machine details from what the system reports: a missing name, version,
    /// kernel or host name shows as "Unknown", a missing processor as
    /// "Unknown CPU", and the memory size in binary units.
    pub fn from_system(
        os_name: Option<String>,
        os_version: Option<String>,
        kernel: Option<String>,
        hostname: Option<String>,
        cpu_brand: Option<String>,
        cpu_cores: usize,
        total_memory: u64,
    ) -> (s: Self)
        ensures
            s.os_name@ == or_text(os_name, "Unknown"@),
            s.os_version@ == or_text(os_version, "Unknown"@),
            s.kernel@ == or_text(kernel, "Unknown"@),
            s.hostname@ == or_text(hostname, "Unknown"@),
            s.cpu_brand@ == or_text(cpu_brand, "Unknown CPU"@),
            s.cpu_cores == cpu_cores,
            s.total_ram@ == format_bytes_spec(total_memory as nat),
    {
        let cpu_brand = match cpu_brand {
            Some(b) => b,
            None => String::from_str("Unknown CPU"),
        };
        InfoState {
            os_name: or_unknown(os_name),
            os_version: or_unknown(os_version),
            kernel: or_unknown(kernel),
            hostname: or_unknown(hostname),
            cpu_brand,
            cpu_cores,
            total_ram: format_bytes(total_memory),
        }
    }
}

} // verus!
