use vstd::prelude::*;

verus! {

/// Smallest timeout handed out for a missing parcel, in milliseconds.
pub const MIN_TBE_MS: u64 = 30000;
/// Largest timeout handed out for a missing parcel, in milliseconds.
pub const MAX_TBE_MS: u64 = 40000;

/// Estimate of the time between executions of parcels, kept as an exponentially
/// weighted moving average (smoothing factor 1/8) of the mean and of the mean
/// absolute deviation, both in milliseconds.
pub struct ParcelTimeoutData {
    /// When a chain was last executed, in milliseconds since an arbitrary origin.
    pub last_executed_timestamp: Option<u64>,
    pub estimated_tbe: u64,
    pub deviation_tbe: u64,
}

/// `lo` or `hi` where `x` falls outside `[lo, hi]`, else `x`.
pub open spec fn clamp(x: int, lo: int, hi: int) -> int {
    if x < lo {
        lo
    } else if x > hi {
        hi
    } else {
        x
    }
}

/// The timeout for a missing parcel: four deviations above the mean, clamped.
pub open spec fn timeout_of(estimated: u64, deviation: u64) -> int {
    clamp(4 * deviation + estimated, MIN_TBE_MS as int, MAX_TBE_MS as int)
}

pub open spec fn abs_diff(a: int, b: int) -> int {
    if a >= b {
        a - b
    } else {
        b - a
    }
}

/// The mean after one more sample: `7/8` of the old mean plus `1/8` of the sample,
/// rounded down.
pub open spec fn next_estimate(estimated: u64, sample: u64) -> int {
    (7 * estimated + sample) / 8
}

/// The deviation after one more sample: `7/8` of the old deviation plus `1/8` of
/// the distance between the sample and the new (unrounded) mean, rounded down.
/// That distance is `7/8` of the distance between the sample and the old mean.
pub open spec fn next_deviation(deviation: u64, estimated: u64, sample: u64) -> int {
    (56 * deviation + 7 * abs_diff(estimated as int, sample as int)) / 64
}

/// The estimate after an execution recorded at time `now`: where an earlier
/// execution is known and lies no later than `now`, the time between the two is
/// taken as a sample.
pub open spec fn tbe_next(old: ParcelTimeoutData, now: u64) -> ParcelTimeoutData {
    match old.last_executed_timestamp {
        Some(t) if t <= now => ParcelTimeoutData {
            last_executed_timestamp: Some(now),
            estimated_tbe: next_estimate(old.estimated_tbe, (now - t) as u64) as u64,
            deviation_tbe: next_deviation(old.deviation_tbe, old.estimated_tbe, (now - t) as u64) as u64,
        },
        _ => ParcelTimeoutData { last_executed_timestamp: Some(now), ..old },
    }
}

/// The estimate after `k` executions recorded at time `now`.
pub open spec fn tbe_after(t: ParcelTimeoutData, now: u64, k: nat) -> ParcelTimeoutData
    decreases k,
{
    if k == 0 {
        t
    } else {
        tbe_after(tbe_next(t, now), now, (k - 1) as nat)
    }
}

/// `new` is `old` after an execution recorded at time `now`.
pub open spec fn tbe_updated(old: ParcelTimeoutData, new: ParcelTimeoutData, now: u64) -> bool {
    new == tbe_next(old, now)
}

impl ParcelTimeoutData {
    /// Initial estimate: thirty seconds, five seconds of deviation, no execution yet.
    pub open spec fn new_spec() -> Self {
        ParcelTimeoutData { last_executed_timestamp: None, estimated_tbe: 30000, deviation_tbe: 5000 }
    }

    pub fn new() -> (r: Self)
        ensures
            r == Self::new_spec(),
    {
        ParcelTimeoutData { last_executed_timestamp: None, estimated_tbe: 30000, deviation_tbe: 5000 }
    }

    /// The timeout after which a missing parcel is requested from peers.
    pub fn get_parcel_timeout(&self) -> (r: u64)
        ensures
            r == timeout_of(self.estimated_tbe, self.deviation_tbe),
            MIN_TBE_MS <= r <= MAX_TBE_MS,
    {
        let t: u128 = 4 * (self.deviation_tbe as u128) + self.estimated_tbe as u128;
        if t < MIN_TBE_MS as u128 {
            MIN_TBE_MS
        } else if t > MAX_TBE_MS as u128 {
            MAX_TBE_MS
        } else {
            t as u64
        }
    }

    /// Records an execution at time `now`.
    pub fn update_estimated_tbe(&mut self, now: u64)
        ensures
            tbe_updated(*old(self), *final(self), now),
    {
        match self.last_executed_timestamp {
            Some(t) if t <= now => {
                let sample: u64 = now - t;
                let est: u128 = self.estimated_tbe as u128;
                let dev: u128 = self.deviation_tbe as u128;
                let s: u128 = sample as u128;
                let new_est: u128 = (7 * est + s) / 8;
                let diff: u128 = if est >= s {
                    est - s
                } else {
                    s - est
                };
                let new_dev: u128 = (56 * dev + 7 * diff) / 64;
                assert(new_est <= u64::MAX) by (nonlinear_arith)
                    requires
                        new_est == (7 * est + s) / 8,
                        est <= u64::MAX,
                        s <= u64::MAX,
                ;
                assert(new_dev <= u64::MAX) by (nonlinear_arith)
                    requires
                        new_dev == (56 * dev + 7 * diff) / 64,
                        dev <= u64::MAX,
                        diff <= u64::MAX,
                ;
                self.estimated_tbe = new_est as u64;
                self.deviation_tbe = new_dev as u64;
            },
            _ => {},
        }
        self.last_executed_timestamp = Some(now);
    }
}

} // verus!
