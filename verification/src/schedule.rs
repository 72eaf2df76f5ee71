//! The cadence of a prequential run: when metrics are sampled, when memory
//! is re-measured, and when the run stops.  The loop itself performs I/O
//! and clock reads; every decision it takes comes from here.
use vstd::prelude::*;

verus! {

/// A configuration the loop refuses at construction.
#[derive(Clone, Copy, PartialEq, Eq, Structural, Debug)]
pub enum ConfigError {
    /// `sample_frequency` was zero.
    ZeroSampleFrequency,
    /// `mem_check_frequency` was zero.
    ZeroMemCheckFrequency,
}

/// The two periods a prequential run beats to.
#[derive(Debug)]
pub struct PrequentialSchedule {
    pub sample_frequency: u64,
    pub mem_check_frequency: u64,
}

impl PrequentialSchedule {
    pub open spec fn wf(&self) -> bool {
        self.sample_frequency > 0 && self.mem_check_frequency > 0
    }

    /// Accepts the two periods; a zero period is refused, the sample
    /// frequency being checked first.
    pub fn new(sample_frequency: u64, mem_check_frequency: u64) -> (r: Result<
        PrequentialSchedule,
        ConfigError,
    >)
        ensures
            match r {
                Ok(s) => sample_frequency > 0 && mem_check_frequency > 0 && s.sample_frequency
                    == sample_frequency && s.mem_check_frequency == mem_check_frequency && s.wf(),
                Err(e) => (sample_frequency == 0 || mem_check_frequency == 0) && e == (
                if sample_frequency == 0 {
                    ConfigError::ZeroSampleFrequency
                } else {
                    ConfigError::ZeroMemCheckFrequency
                }),
            },
    {
        if sample_frequency == 0 {
            return Err(ConfigError::ZeroSampleFrequency);
        }
        if mem_check_frequency == 0 {
            return Err(ConfigError::ZeroMemCheckFrequency);
        }
        Ok(PrequentialSchedule { sample_frequency, mem_check_frequency })
    }

    /// A snapshot is due after every `sample_frequency`-th instance.
    pub fn snapshot_due(&self, processed: u64) -> (r: bool)
        requires
            self.wf(),
        ensures
            r == (processed % self.sample_frequency == 0),
    {
        processed % self.sample_frequency == 0
    }

    /// Memory is re-measured after every `mem_check_frequency`-th instance.
    pub fn mem_check_due(&self, processed: u64) -> (r: bool)
        requires
            self.wf(),
        ensures
            r == (processed % self.mem_check_frequency == 0),
    {
        processed % self.mem_check_frequency == 0
    }

    /// Does the instance cap end the run before this instance?
    pub fn should_stop(&self, processed: u64, max_instances: Option<u64>) -> (r: bool)
        ensures
            r == match max_instances {
                Some(n) => processed >= n,
                None => false,
            },
    {
        match max_instances {
            Some(n) => processed >= n,
            None => false,
        }
    }

    /// Every instance count at which a run over `total` instances emits a
    /// snapshot, in order: one per full sample period, and the final
    /// snapshot that always closes the run.  So there are exactly
    /// `total / sample_frequency + 1` snapshots, the periodic ones at the
    /// multiples of the period, and the last at `total` itself.
    pub fn snapshot_points(&self, total: u64) -> (r: Vec<u64>)
        requires
            self.wf(),
            total < u64::MAX,
        ensures
            r@.len() == total / self.sample_frequency + 1,
            forall|i: int|
                0 <= i < total / self.sample_frequency ==> r@[i] == (i + 1) * self.sample_frequency,
            r@[r@.len() - 1] == total,
            forall|i: int| 0 <= i < r@.len() ==> r@[i] <= total,
    {
        let sf = self.sample_frequency;
        let n = total / sf;
        proof {
            assert(n * sf <= total) by (nonlinear_arith)
                requires
                    sf > 0,
                    n == total / sf,
            ;
        }
        let mut out: Vec<u64> = Vec::new();
        let mut i: u64 = 0;
        while i < n
            invariant
                sf == self.sample_frequency,
                sf > 0,
                n == total / sf,
                n * sf <= total,
                0 <= i <= n,
                out@.len() == i,
                forall|k: int| 0 <= k < out@.len() ==> out@[k] == (k + 1) * sf,
                forall|k: int| 0 <= k < out@.len() ==> out@[k] <= total,
            decreases n - i,
        {
            proof {
                assert((i + 1) * sf <= n * sf) by (nonlinear_arith)
                    requires
                        i + 1 <= n,
                        sf > 0,
                ;
            }
            let m = (i + 1) * sf;
            out.push(m);
            i = i + 1;
        }
        out.push(total);
        out
    }
}

} // verus!
