//! The syslog input's configuration.

use crate::tcp::SocketListenAddr;
use vstd::prelude::*;

verus! {

#[derive(Clone, Debug)]
pub struct SyslogConfig {
    pub mode: Mode,
    pub max_length: usize,
    pub host_key: Option<String>,
}

/// Which transport the syslog input listens on.
#[derive(Clone, Debug)]
pub enum Mode {
    Tcp { address: SocketListenAddr },
    Udp { address: String },
    Unix { path: String },
}

/// The default cap on one received frame: a hundred kibibytes.
pub fn default_max_length() -> (r: usize)
    ensures
        r == 102400,
{
    100 * 1024
}

impl SyslogConfig {
    pub fn new(mode: Mode) -> (r: SyslogConfig)
        ensures
            r.mode == mode,
            r.host_key is None,
            r.max_length == 102400,
    {
        SyslogConfig { mode, host_key: None, max_length: default_max_length() }
    }
}

/// The year a syslog timestamp without one belongs to: December messages
/// seen in January come from the year before; everything else from the
/// current year.
pub fn resolve_year(month: u32, now_year: i32, now_month: u32) -> (r: i32)
    requires
        now_year > i32::MIN,
    ensures
        r == if now_month == 1 && month == 12 {
            now_year - 1
        } else {
            now_year as int
        },
{
    if now_month == 1 && month == 12 {
        now_year - 1
    } else {
        now_year
    }
}

} // verus!
