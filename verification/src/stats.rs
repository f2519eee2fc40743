//! Per-forwarder byte and connection counters, and their rendering as
//! key/value pairs.

use vstd::prelude::*;
use crate::text::{spec_dec, u64_to_string};

verus! {

/// Counters one forwarder keeps; `start_time` is on the caller's clock
/// (seconds).
pub struct ConnectionStats {
    pub bytes_sent: u64,
    pub bytes_received: u64,
    pub connections: u32,
    pub start_time: u64,
}

impl Default for ConnectionStats {
    /// All counters zero, started at clock zero.
    fn default() -> (r: Self)
        ensures
            r.bytes_sent == 0 && r.bytes_received == 0 && r.connections == 0 && r.start_time == 0,
    {
        ConnectionStats { bytes_sent: 0, bytes_received: 0, connections: 0, start_time: 0 }
    }
}

impl ConnectionStats {
    pub fn new(now: u64) -> (r: Self)
        ensures
            r.bytes_sent == 0 && r.bytes_received == 0 && r.connections == 0 && r.start_time
                == now,
    {
        ConnectionStats { bytes_sent: 0, bytes_received: 0, connections: 0, start_time: now }
    }

    /// Adds to the sent counter, holding at the top on overflow.
    pub fn add_bytes_sent(&mut self, bytes: u64)
        ensures
            final(self).bytes_sent == if old(self).bytes_sent + bytes <= u64::MAX {
                (old(self).bytes_sent + bytes) as u64
            } else {
                u64::MAX
            },
            final(self).bytes_received == old(self).bytes_received,
            final(self).connections == old(self).connections,
            final(self).start_time == old(self).start_time,
    {
        self.bytes_sent = if self.bytes_sent <= u64::MAX - bytes {
            self.bytes_sent + bytes
        } else {
            u64::MAX
        };
    }

    /// Adds to the received counter, holding at the top on overflow.
    pub fn add_bytes_received(&mut self, bytes: u64)
        ensures
            final(self).bytes_received == if old(self).bytes_received + bytes <= u64::MAX {
                (old(self).bytes_received + bytes) as u64
            } else {
                u64::MAX
            },
            final(self).bytes_sent == old(self).bytes_sent,
            final(self).connections == old(self).connections,
            final(self).start_time == old(self).start_time,
    {
        self.bytes_received = if self.bytes_received <= u64::MAX - bytes {
            self.bytes_received + bytes
        } else {
            u64::MAX
        };
    }

    /// Counts one more accepted connection, holding at the top.
    pub fn increment_connections(&mut self)
        ensures
            final(self).connections == if old(self).connections < u32::MAX {
                (old(self).connections + 1) as u32
            } else {
                u32::MAX
            },
            final(self).bytes_sent == old(self).bytes_sent,
            final(self).bytes_received == old(self).bytes_received,
            final(self).start_time == old(self).start_time,
    {
        if self.connections < u32::MAX {
            self.connections = self.connections + 1;
        }
    }

    /// Seconds since the counters started, zero if the clock ran backward.
    pub fn get_uptime(&self, now: u64) -> (r: u64)
        ensures
            r == if now >= self.start_time {
                (now - self.start_time) as u64
            } else {
                0u64
            },
    {
        if now >= self.start_time {
            now - self.start_time
        } else {
            0
        }
    }
}

/// The rendered counters, as ordered key/value pairs.
pub open spec fn spec_standard_stats(s: ConnectionStats, now: u64) -> Seq<(Seq<char>, Seq<char>)> {
    seq![
        ("connections"@, spec_dec(s.connections as int)),
        ("bytes_sent"@, spec_dec(s.bytes_sent as int)),
        ("bytes_received"@, spec_dec(s.bytes_received as int)),
        (
            "uptime"@,
            spec_dec(
                if now >= s.start_time {
                    now - s.start_time
                } else {
                    0
                },
            ),
        ),
    ]
}

/// Renders the standard counters of a forwarder.
pub fn get_standard_stats(stats: &ConnectionStats, now: u64) -> (r: Vec<(String, String)>)
    ensures
        r.deep_view() == spec_standard_stats(*stats, now),
{
    let mut r: Vec<(String, String)> = Vec::new();
    r.push((String::from_str("connections"), u64_to_string(stats.connections as u64)));
    r.push((String::from_str("bytes_sent"), u64_to_string(stats.bytes_sent)));
    r.push((String::from_str("bytes_received"), u64_to_string(stats.bytes_received)));
    r.push((String::from_str("uptime"), u64_to_string(stats.get_uptime(now))));
    proof {
        assert(r.deep_view() =~= spec_standard_stats(*stats, now));
    }
    r
}

/// Renders the standard counters plus the active target.
pub fn get_stats_with_target(stats: &ConnectionStats, target_addr: &str, now: u64) -> (r: Vec<
    (String, String),
>)
    ensures
        r.deep_view() == spec_standard_stats(*stats, now).push(("target_addr"@, target_addr@)),
{
    let mut r = get_standard_stats(stats, now);
    let ghost pre = r.deep_view();
    r.push((String::from_str("target_addr"), String::from_str(target_addr)));
    proof {
        assert(r.deep_view() =~= pre.push(("target_addr"@, target_addr@)));
    }
    r
}

} // verus!
