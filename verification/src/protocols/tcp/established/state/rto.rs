//! The retransmission timeout of a sender: an estimate of the round-trip
//! time plus a margin for its variation, doubled each time a retransmission
//! timer runs out. All times are in microseconds.

use vstd::prelude::*;

verus! {

/// The shortest timeout.
pub const RTO_LOWER_BOUND: u64 = 100_000;

/// The longest timeout, and the longest round-trip time taken into account.
pub const RTO_UPPER_BOUND: u64 = 60_000_000;

/// The timeout before the first sample.
pub const RTO_INITIAL: u64 = 1_000_000;

/// The resolution of the clock: the least margin above the round-trip time.
pub const RTO_GRANULARITY: u64 = 1_000;

/// `value`, moved into the range of timeouts if it is outside.
pub open spec fn clamp_rto(value: int) -> int {
    if value < RTO_LOWER_BOUND {
        RTO_LOWER_BOUND as int
    } else if value > RTO_UPPER_BOUND {
        RTO_UPPER_BOUND as int
    } else {
        value
    }
}

/// The difference between two times, whichever is later.
pub open spec fn abs_diff(a: int, b: int) -> int {
    if a >= b {
        a - b
    } else {
        b - a
    }
}

/// The estimator.
#[derive(Clone, Copy, Debug)]
pub struct RtoCalculator {
    srtt: u64,
    rttvar: u64,
    rto: u64,
    received_sample: bool,
}

impl RtoCalculator {
    #[verifier::type_invariant]
    spec fn in_range(&self) -> bool {
        &&& self.srtt <= RTO_UPPER_BOUND
        &&& self.rttvar <= RTO_UPPER_BOUND
        &&& RTO_LOWER_BOUND <= self.rto <= RTO_UPPER_BOUND
    }

    /// The smoothed round-trip time.
    pub closed spec fn srtt(&self) -> int {
        self.srtt as int
    }

    /// The smoothed variation of the round-trip time.
    pub closed spec fn rttvar(&self) -> int {
        self.rttvar as int
    }

    /// The current timeout.
    pub closed spec fn rto(&self) -> int {
        self.rto as int
    }

    /// Whether a round-trip time was sampled yet.
    pub closed spec fn has_sample(&self) -> bool {
        self.received_sample
    }

    /// Whether `self` is `before` with the round-trip time `rtt` taken into
    /// account.
    pub open spec fn is_sampled(&self, before: &Self, rtt: u64) -> bool {
        let sample = if rtt > RTO_UPPER_BOUND {
            RTO_UPPER_BOUND as int
        } else {
            rtt as int
        };
        let srtt = if before.has_sample() {
            (7 * before.srtt() + sample) / 8
        } else {
            sample
        };
        let rttvar = if before.has_sample() {
            (3 * before.rttvar() + abs_diff(before.srtt(), sample)) / 4
        } else {
            sample / 2
        };
        let margin = if 4 * rttvar > RTO_GRANULARITY {
            4 * rttvar
        } else {
            RTO_GRANULARITY as int
        };
        &&& self.has_sample()
        &&& self.srtt() == srtt
        &&& self.rttvar() == rttvar
        &&& self.rto() == clamp_rto(srtt + margin)
    }

    /// An estimator without samples.
    pub fn new() -> (calculator: Self)
        ensures
            calculator.rto() == RTO_INITIAL,
            !calculator.has_sample(),
    {
        RtoCalculator { srtt: RTO_INITIAL, rttvar: 0, rto: RTO_INITIAL, received_sample: false }
    }

    /// Takes a measured round-trip time into account. A measurement above
    /// the longest timeout counts as the longest timeout. The first sample
    /// sets the smoothed time to itself and the variation to half of it;
    /// every later one moves the variation a quarter of the way towards its
    /// distance from the smoothed time, and the smoothed time an eighth of
    /// the way towards itself. The timeout is the smoothed time plus four
    /// times the variation, or plus the clock's resolution if that is more,
    /// kept within the range of timeouts.
    pub fn add_sample(&mut self, rtt: u64)
        ensures
            final(self).is_sampled(old(self), rtt),
    {
        proof {
            use_type_invariant(&*self);
        }
        let sample = if rtt > RTO_UPPER_BOUND {
            RTO_UPPER_BOUND
        } else {
            rtt
        };
        let srtt: u64;
        let rttvar: u64;
        if !self.received_sample {
            srtt = sample;
            rttvar = sample / 2;
        } else {
            let distance = if self.srtt >= sample {
                self.srtt - sample
            } else {
                sample - self.srtt
            };
            rttvar = (3 * self.rttvar + distance) / 4;
            srtt = (7 * self.srtt + sample) / 8;
        }
        let margin = if 4 * rttvar > RTO_GRANULARITY {
            4 * rttvar
        } else {
            RTO_GRANULARITY
        };
        let rto = Self::clamp(srtt + margin);
        *self = RtoCalculator { srtt, rttvar, rto, received_sample: true };
    }

    /// Records that a retransmission timer ran out: the timeout doubles, up
    /// to the longest timeout. The estimate of the round-trip time stays.
    pub fn record_failure(&mut self)
        ensures
            final(self).rto() == clamp_rto(2 * old(self).rto()),
            final(self).rto() >= old(self).rto(),
            old(self).rto() < RTO_UPPER_BOUND ==> final(self).rto() > old(self).rto(),
            final(self).srtt() == old(self).srtt(),
            final(self).rttvar() == old(self).rttvar(),
            final(self).has_sample() == old(self).has_sample(),
    {
        proof {
            use_type_invariant(&*self);
        }
        let rto = Self::clamp(2 * self.rto);
        *self = RtoCalculator {
            srtt: self.srtt,
            rttvar: self.rttvar,
            rto,
            received_sample: self.received_sample,
        };
    }

    /// The current timeout.
    pub fn estimate(&self) -> (timeout: u64)
        ensures
            timeout == self.rto(),
            RTO_LOWER_BOUND <= timeout <= RTO_UPPER_BOUND,
    {
        proof {
            use_type_invariant(self);
        }
        self.rto
    }

    fn clamp(value: u64) -> (clamped: u64)
        ensures
            clamped == clamp_rto(value as int),
    {
        if value < RTO_LOWER_BOUND {
            RTO_LOWER_BOUND
        } else if value > RTO_UPPER_BOUND {
            RTO_UPPER_BOUND
        } else {
            value
        }
    }
}

} // verus!
