use vstd::prelude::*;

verus! {

/// Security / performance trade-off of the pulse strategy.
#[derive(Clone, Copy, Debug, PartialEq, Eq, Structural)]
pub enum RatchetMode {
    /// KEM pulse at every opportunity.
    MaximumSecurity,
    /// Adaptive, based on runtime metrics (the default).
    BalancedFlow,
    /// Avoid KEM pulses unless a threshold forces one.
    MinimalOverhead,
}

/// Runtime metrics the strategy bases its decision on.
#[derive(Clone, Copy, Debug)]
pub struct Metrics {
    /// Messages sent since the last KEM pulse.
    pub msgs_since_last_kem: u64,
    /// Bytes sent since the last KEM pulse.
    pub bytes_sent_since_last_kem: u64,
    /// Unix seconds of the last KEM pulse.
    pub time_last_kem: u64,
    /// Consecutive sends without an intervening reception (burst length).
    pub consecutive_sends: u64,
    /// Whether the device reports low battery.
    pub is_battery_low: bool,
}

/// Saturating 64-bit addition.
pub open spec fn sat_add64(a: u64, b: u64) -> u64 {
    if a + b <= u64::MAX {
        (a + b) as u64
    } else {
        u64::MAX
    }
}

/// Saturating 64-bit subtraction.
pub open spec fn sat_sub64(a: u64, b: u64) -> u64 {
    if a >= b {
        (a - b) as u64
    } else {
        0
    }
}

/// Relies on std::time::SystemTime::now and its distance from the Unix
/// epoch: returns the current time as Unix seconds (0 should the clock
/// read before the epoch). Nothing is promised of the value.
#[verifier::external_body]
pub(crate) fn current_timestamp() -> u64 {
    match std::time::SystemTime::now().duration_since(std::time::UNIX_EPOCH) {
        Ok(d) => d.as_secs(),
        Err(_) => 0,
    }
}

/// Adaptive pulse decision engine: decides per outgoing message whether
/// to perform a KEM pulse or continue on the symmetric chain.
pub struct OrganicStrategy {
    /// Current trade-off mode.
    pub mode: RatchetMode,
    /// Runtime metrics.
    pub metrics: Metrics,
    /// Messages since the last pulse after which a pulse is forced.
    pub max_entropy_decay_msgs: u64,
    /// Seconds since the last pulse after which a pulse is forced.
    pub max_entropy_decay_time: u64,
    /// Bytes since the last pulse after which a pulse is forced.
    pub max_entropy_decay_bytes: u64,
}

/// The pulse decision at a given time. In a burst (consecutive sends
/// without a reception) a pulse is never allowed, so that a dropped
/// message cannot desynchronize the root key across consecutive pulses.
/// Otherwise MaximumSecurity always pulses; any decay threshold
/// (messages, elapsed time, bytes) forces a pulse; and so does a message
/// larger than 1024 bytes.
pub open spec fn pulse_decision(s: OrganicStrategy, msg_size: usize, now: u64) -> bool {
    if s.metrics.consecutive_sends > 0 {
        false
    } else if s.mode == RatchetMode::MaximumSecurity {
        true
    } else if s.metrics.msgs_since_last_kem >= s.max_entropy_decay_msgs {
        true
    } else if sat_sub64(now, s.metrics.time_last_kem) >= s.max_entropy_decay_time {
        true
    } else if s.metrics.bytes_sent_since_last_kem >= s.max_entropy_decay_bytes {
        true
    } else if msg_size > 1024 {
        true
    } else {
        false
    }
}

impl OrganicStrategy {
    /// Create a strategy in the given mode with the standard decay
    /// thresholds (50 messages, 300 seconds, 1 MiB) and zeroed metrics;
    /// the pulse clock starts at the current time.
    pub fn new(mode: RatchetMode) -> (r: OrganicStrategy)
        ensures
            r.mode == mode,
            r.metrics.msgs_since_last_kem == 0,
            r.metrics.bytes_sent_since_last_kem == 0,
            r.metrics.consecutive_sends == 0,
            !r.metrics.is_battery_low,
            r.max_entropy_decay_msgs == 50,
            r.max_entropy_decay_time == 300,
            r.max_entropy_decay_bytes == 1048576,
    {
        OrganicStrategy {
            mode,
            metrics: Metrics {
                msgs_since_last_kem: 0,
                bytes_sent_since_last_kem: 0,
                time_last_kem: current_timestamp(),
                consecutive_sends: 0,
                is_battery_low: false,
            },
            max_entropy_decay_msgs: 50,
            max_entropy_decay_time: 300,
            max_entropy_decay_bytes: 1048576,
        }
    }

    /// The pulse decision evaluated at an explicit time, exactly as
    /// [`pulse_decision`] states it.
    pub fn should_pulse_at(&self, msg_size: usize, now: u64) -> (r: bool)
        ensures
            r == pulse_decision(*self, msg_size, now),
    {
        if self.metrics.consecutive_sends > 0 {
            return false;
        }
        if self.mode == RatchetMode::MaximumSecurity {
            return true;
        }
        let elapsed: u64 = if now >= self.metrics.time_last_kem {
            now - self.metrics.time_last_kem
        } else {
            0
        };
        let decay_critical = self.metrics.msgs_since_last_kem >= self.max_entropy_decay_msgs
            || elapsed >= self.max_entropy_decay_time
            || self.metrics.bytes_sent_since_last_kem >= self.max_entropy_decay_bytes;
        if decay_critical {
            return true;
        }
        if msg_size > 1024 {
            return true;
        }
        false
    }

    /// The pulse decision at the current time. Everything except the
    /// elapsed-time threshold is pinned: a burst never pulses; with no
    /// burst, MaximumSecurity, a reached message or byte threshold, or a
    /// large message each force a pulse.
    pub fn should_trigger_quantum_pulse(&self, msg_size: usize) -> (r: bool)
        ensures
            exists|now: u64| r == pulse_decision(*self, msg_size, now),
            self.metrics.consecutive_sends > 0 ==> !r,
            self.metrics.consecutive_sends == 0 && self.mode == RatchetMode::MaximumSecurity ==> r,
            self.metrics.consecutive_sends == 0 && self.metrics.msgs_since_last_kem
                >= self.max_entropy_decay_msgs ==> r,
            self.metrics.consecutive_sends == 0 && self.metrics.bytes_sent_since_last_kem
                >= self.max_entropy_decay_bytes ==> r,
            self.metrics.consecutive_sends == 0 && msg_size > 1024 ==> r,
    {
        let now = current_timestamp();
        let r = self.should_pulse_at(msg_size, now);
        proof {
            assert(r == pulse_decision(*self, msg_size, now));
        }
        r
    }

    /// Record that a KEM pulse was performed: message and byte counters
    /// reset, the pulse clock is restamped, and the burst length grows.
    pub fn record_pulse(&mut self)
        ensures
            final(self).metrics.msgs_since_last_kem == 0,
            final(self).metrics.bytes_sent_since_last_kem == 0,
            final(self).metrics.consecutive_sends == sat_add64(
                old(self).metrics.consecutive_sends,
                1,
            ),
            final(self).metrics.is_battery_low == old(self).metrics.is_battery_low,
            final(self).mode == old(self).mode,
            final(self).max_entropy_decay_msgs == old(self).max_entropy_decay_msgs,
            final(self).max_entropy_decay_time == old(self).max_entropy_decay_time,
            final(self).max_entropy_decay_bytes == old(self).max_entropy_decay_bytes,
    {
        self.metrics.msgs_since_last_kem = 0;
        self.metrics.bytes_sent_since_last_kem = 0;
        self.metrics.time_last_kem = current_timestamp();
        self.metrics.consecutive_sends = sat_add64_exec(self.metrics.consecutive_sends, 1);
    }

    /// Record that a symmetric flow message of `msg_size` bytes was
    /// sent: message, byte and burst counters each grow (saturating).
    pub fn record_flow(&mut self, msg_size: usize)
        ensures
            final(self).metrics.msgs_since_last_kem == sat_add64(
                old(self).metrics.msgs_since_last_kem,
                1,
            ),
            final(self).metrics.bytes_sent_since_last_kem == sat_add64(
                old(self).metrics.bytes_sent_since_last_kem,
                msg_size as u64,
            ),
            final(self).metrics.consecutive_sends == sat_add64(
                old(self).metrics.consecutive_sends,
                1,
            ),
            final(self).metrics.time_last_kem == old(self).metrics.time_last_kem,
            final(self).metrics.is_battery_low == old(self).metrics.is_battery_low,
            final(self).mode == old(self).mode,
            final(self).max_entropy_decay_msgs == old(self).max_entropy_decay_msgs,
            final(self).max_entropy_decay_time == old(self).max_entropy_decay_time,
            final(self).max_entropy_decay_bytes == old(self).max_entropy_decay_bytes,
    {
        self.metrics.msgs_since_last_kem = sat_add64_exec(self.metrics.msgs_since_last_kem, 1);
        self.metrics.bytes_sent_since_last_kem = sat_add64_exec(
            self.metrics.bytes_sent_since_last_kem,
            msg_size as u64,
        );
        self.metrics.consecutive_sends = sat_add64_exec(self.metrics.consecutive_sends, 1);
    }

    /// Record that a message was received: the burst length resets, so
    /// the next send may pulse again.
    pub fn record_reception(&mut self)
        ensures
            final(self).metrics.consecutive_sends == 0,
            final(self).metrics.msgs_since_last_kem == old(self).metrics.msgs_since_last_kem,
            final(self).metrics.bytes_sent_since_last_kem == old(
                self,
            ).metrics.bytes_sent_since_last_kem,
            final(self).metrics.time_last_kem == old(self).metrics.time_last_kem,
            final(self).metrics.is_battery_low == old(self).metrics.is_battery_low,
            final(self).mode == old(self).mode,
            final(self).max_entropy_decay_msgs == old(self).max_entropy_decay_msgs,
            final(self).max_entropy_decay_time == old(self).max_entropy_decay_time,
            final(self).max_entropy_decay_bytes == old(self).max_entropy_decay_bytes,
    {
        self.metrics.consecutive_sends = 0;
    }

    /// Switch to MinimalOverhead under a latency spike, back to
    /// BalancedFlow otherwise; metrics are untouched.
    pub fn adapt_to_stress(&mut self, latency_spike: bool)
        ensures
            final(self).mode == if latency_spike {
                RatchetMode::MinimalOverhead
            } else {
                RatchetMode::BalancedFlow
            },
            final(self).metrics == old(self).metrics,
            final(self).max_entropy_decay_msgs == old(self).max_entropy_decay_msgs,
            final(self).max_entropy_decay_time == old(self).max_entropy_decay_time,
            final(self).max_entropy_decay_bytes == old(self).max_entropy_decay_bytes,
    {
        if latency_spike {
            self.mode = RatchetMode::MinimalOverhead;
        } else {
            self.mode = RatchetMode::BalancedFlow;
        }
    }

    /// Reset all metrics to their starting values; the pulse clock is
    /// restamped at the current time.
    pub fn reset_metrics(&mut self)
        ensures
            final(self).metrics.msgs_since_last_kem == 0,
            final(self).metrics.bytes_sent_since_last_kem == 0,
            final(self).metrics.consecutive_sends == 0,
            !final(self).metrics.is_battery_low,
            final(self).mode == old(self).mode,
            final(self).max_entropy_decay_msgs == old(self).max_entropy_decay_msgs,
            final(self).max_entropy_decay_time == old(self).max_entropy_decay_time,
            final(self).max_entropy_decay_bytes == old(self).max_entropy_decay_bytes,
    {
        self.metrics = Metrics {
            msgs_since_last_kem: 0,
            bytes_sent_since_last_kem: 0,
            time_last_kem: current_timestamp(),
            consecutive_sends: 0,
            is_battery_low: false,
        };
    }
}

/// Saturating 64-bit addition, executable form of [`sat_add64`].
pub fn sat_add64_exec(a: u64, b: u64) -> (r: u64)
    ensures
        r == sat_add64(a, b),
{
    if a <= u64::MAX - b {
        a + b
    } else {
        u64::MAX
    }
}

/// Saturating 64-bit subtraction, executable form of [`sat_sub64`].
pub fn sat_sub64_exec(a: u64, b: u64) -> (r: u64)
    ensures
        r == sat_sub64(a, b),
{
    if a >= b {
        a - b
    } else {
        0
    }
}

} // verus!
