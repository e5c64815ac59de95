//! Traffic counters of the VPN and the bits-per-second rates derived from
//! them at most once a second.  Times are whole seconds since the Unix
//! epoch.

use vstd::prelude::*;

verus! {

/// Least number of seconds between two rate computations.
pub const RATE_WINDOW_SECS: u64 = 1;

/// The counters as reported.
#[derive(Debug, Clone, Copy, PartialEq, Eq, Default, Structural)]
pub struct MetricsSnapshot {
    pub tx_packets: u64,
    pub tx_bytes: u64,
    pub rx_packets: u64,
    pub rx_bytes: u64,
    pub drop_packets: u64,
    pub last_tx_ts: u64,
    pub last_rx_ts: u64,
    pub tx_bps: u64,
    pub rx_bps: u64,
}

/// What the rates were last computed from.
#[derive(Debug, Clone, Copy, PartialEq, Eq, Default, Structural)]
pub struct RateSampler {
    pub last_ts: u64,
    pub last_tx_bytes: u64,
    pub last_rx_bytes: u64,
    pub tx_bps: u64,
    pub rx_bps: u64,
}

/// Traffic counters; they wrap around as the atomic counters they stand for
/// do.
#[derive(Debug, Clone, Copy, PartialEq, Eq, Default, Structural)]
pub struct Metrics {
    pub tx_packets: u64,
    pub tx_bytes: u64,
    pub rx_packets: u64,
    pub rx_bytes: u64,
    pub drop_packets: u64,
    pub last_tx_ts: u64,
    pub last_rx_ts: u64,
    pub sampler: RateSampler,
}

/// `a + b` wrapping at 2^64.
pub open spec fn wrap_add(a: u64, b: u64) -> u64 {
    if a + b > u64::MAX {
        (a + b - 0x1_0000_0000_0000_0000) as u64
    } else {
        (a + b) as u64
    }
}

/// `a * 8`, saturating.
pub open spec fn sat_mul8(a: u64) -> u64 {
    if a * 8 > u64::MAX {
        u64::MAX
    } else {
        (a * 8) as u64
    }
}

/// `a - b`, saturating at 0.
pub open spec fn sat_sub(a: u64, b: u64) -> u64 {
    if a >= b {
        (a - b) as u64
    } else {
        0
    }
}

/// The sampler after rates are asked for at `now` with the given byte
/// totals, and the (tx, rx) rates returned: the first call only records a
/// sample; within a second of the last sample the cached rates are
/// returned; otherwise the rates are the bits sent since, per second.
pub open spec fn refreshed(s: RateSampler, tx_bytes: u64, rx_bytes: u64, now: u64) -> (
    RateSampler,
    (u64, u64),
) {
    if s.last_ts == 0 {
        (RateSampler { last_ts: now, last_tx_bytes: tx_bytes, last_rx_bytes: rx_bytes, ..s }, (0, 0))
    } else if sat_sub(now, s.last_ts) < RATE_WINDOW_SECS {
        (s, (s.tx_bps, s.rx_bps))
    } else {
        let elapsed = sat_sub(now, s.last_ts);
        let tx = (sat_mul8(sat_sub(tx_bytes, s.last_tx_bytes)) / elapsed) as u64;
        let rx = (sat_mul8(sat_sub(rx_bytes, s.last_rx_bytes)) / elapsed) as u64;
        (
            RateSampler {
                last_ts: now,
                last_tx_bytes: tx_bytes,
                last_rx_bytes: rx_bytes,
                tx_bps: tx,
                rx_bps: rx,
            },
            (tx, rx),
        )
    }
}

fn sat_mul8_exec(a: u64) -> (r: u64)
    ensures
        r == sat_mul8(a),
{
    match a.checked_mul(8) {
        Some(v) => v,
        None => u64::MAX,
    }
}

impl Metrics {
    /// All counters at zero.
    pub fn new() -> (m: Self)
        ensures
            m == (Metrics {
                tx_packets: 0,
                tx_bytes: 0,
                rx_packets: 0,
                rx_bytes: 0,
                drop_packets: 0,
                last_tx_ts: 0,
                last_rx_ts: 0,
                sampler: RateSampler {
                    last_ts: 0,
                    last_tx_bytes: 0,
                    last_rx_bytes: 0,
                    tx_bps: 0,
                    rx_bps: 0,
                },
            }),
    {
        Metrics {
            tx_packets: 0,
            tx_bytes: 0,
            rx_packets: 0,
            rx_bytes: 0,
            drop_packets: 0,
            last_tx_ts: 0,
            last_rx_ts: 0,
            sampler: RateSampler {
                last_ts: 0,
                last_tx_bytes: 0,
                last_rx_bytes: 0,
                tx_bps: 0,
                rx_bps: 0,
            },
        }
    }

    /// Counts a packet of `bytes` sent at `now`.
    pub fn record_tx(&mut self, bytes: usize, now: u64)
        ensures
            *final(self) == (Metrics {
                tx_packets: wrap_add(old(self).tx_packets, 1),
                tx_bytes: wrap_add(old(self).tx_bytes, bytes as u64),
                last_tx_ts: now,
                ..*old(self)
            }),
    {
        self.tx_packets = self.tx_packets.wrapping_add(1);
        self.tx_bytes = self.tx_bytes.wrapping_add(bytes as u64);
        self.last_tx_ts = now;
    }

    /// Counts a packet of `bytes` received at `now`.
    pub fn record_rx(&mut self, bytes: usize, now: u64)
        ensures
            *final(self) == (Metrics {
                rx_packets: wrap_add(old(self).rx_packets, 1),
                rx_bytes: wrap_add(old(self).rx_bytes, bytes as u64),
                last_rx_ts: now,
                ..*old(self)
            }),
    {
        self.rx_packets = self.rx_packets.wrapping_add(1);
        self.rx_bytes = self.rx_bytes.wrapping_add(bytes as u64);
        self.last_rx_ts = now;
    }

    /// Counts a dropped packet.
    pub fn record_drop(&mut self)
        ensures
            *final(self) == (Metrics {
                drop_packets: wrap_add(old(self).drop_packets, 1),
                ..*old(self)
            }),
    {
        self.drop_packets = self.drop_packets.wrapping_add(1);
    }

    /// Recomputes the rates at `now`, at most once a second.
    pub fn refresh_rates(&mut self, tx_bytes: u64, rx_bytes: u64, now: u64) -> (r: (u64, u64))
        ensures
            (final(self).sampler, r) == refreshed(old(self).sampler, tx_bytes, rx_bytes, now),
            *final(self) == (Metrics { sampler: final(self).sampler, ..*old(self) }),
    {
        if self.sampler.last_ts == 0 {
            self.sampler.last_ts = now;
            self.sampler.last_tx_bytes = tx_bytes;
            self.sampler.last_rx_bytes = rx_bytes;
            return (0, 0);
        }
        let elapsed = if now >= self.sampler.last_ts {
            now - self.sampler.last_ts
        } else {
            0
        };
        if elapsed < RATE_WINDOW_SECS {
            return (self.sampler.tx_bps, self.sampler.rx_bps);
        }
        let tx_delta = if tx_bytes >= self.sampler.last_tx_bytes {
            tx_bytes - self.sampler.last_tx_bytes
        } else {
            0
        };
        let rx_delta = if rx_bytes >= self.sampler.last_rx_bytes {
            rx_bytes - self.sampler.last_rx_bytes
        } else {
            0
        };
        self.sampler.tx_bps = sat_mul8_exec(tx_delta) / elapsed;
        self.sampler.rx_bps = sat_mul8_exec(rx_delta) / elapsed;
        self.sampler.last_ts = now;
        self.sampler.last_tx_bytes = tx_bytes;
        self.sampler.last_rx_bytes = rx_bytes;
        (self.sampler.tx_bps, self.sampler.rx_bps)
    }

    /// The counters and the rates at `now`.
    pub fn snapshot(&mut self, now: u64) -> (s: MetricsSnapshot)
        ensures
            ({
                let (sampler, (tx, rx)) = refreshed(
                    old(self).sampler,
                    old(self).tx_bytes,
                    old(self).rx_bytes,
                    now,
                );
                &&& final(self).sampler == sampler
                &&& *final(self) == (Metrics { sampler, ..*old(self) })
                &&& s == (MetricsSnapshot {
                    tx_packets: old(self).tx_packets,
                    tx_bytes: old(self).tx_bytes,
                    rx_packets: old(self).rx_packets,
                    rx_bytes: old(self).rx_bytes,
                    drop_packets: old(self).drop_packets,
                    last_tx_ts: old(self).last_tx_ts,
                    last_rx_ts: old(self).last_rx_ts,
                    tx_bps: tx,
                    rx_bps: rx,
                })
            }),
    {
        let tx_bytes = self.tx_bytes;
        let rx_bytes = self.rx_bytes;
        let (tx_bps, rx_bps) = self.refresh_rates(tx_bytes, rx_bytes, now);
        MetricsSnapshot {
            tx_packets: self.tx_packets,
            tx_bytes,
            rx_packets: self.rx_packets,
            rx_bytes,
            drop_packets: self.drop_packets,
            last_tx_ts: self.last_tx_ts,
            last_rx_ts: self.last_rx_ts,
            tx_bps,
            rx_bps,
        }
    }
}

/// Asking for rates twice within a second gives the same rates and leaves
/// the sampler as the first call left it.
pub proof fn lemma_rates_cached_within_window(
    s: RateSampler,
    tx1: u64,
    rx1: u64,
    now: u64,
    tx2: u64,
    rx2: u64,
)
    requires
        s.last_ts != 0,
        now != 0,
    ensures
        ({
            let (s1, r1) = refreshed(s, tx1, rx1, now);
            let (s2, r2) = refreshed(s1, tx2, rx2, now);
            s2 == s1 && r2 == r1
        }),
{
}

} // verus!
