//! The split criterion's identity and its fixed merit range.  Merit values
//! are 64-bit floating-point scores, so the scoring itself runs beside this
//! crate; what stands here is what the tree's decision rule reads: the
//! Gini criterion's merit range is the constant one, whatever the
//! pre-split distribution.
use crate::memory::{clamp_usize, MemoryMeter, MemorySized};
use vstd::prelude::*;

verus! {

/// The IEEE-754 bits of the 64-bit value one: the Gini merit range.
pub const ONE_BITS: u64 = 0x3FF0000000000000;

/// The IEEE-754 bits of the 64-bit value 1e-7: the floor a zero split
/// confidence is lifted to.
pub const SPLIT_CONFIDENCE_FLOOR_BITS: u64 = 0x3E7AD7F29ABCAF48;

/// The IEEE-754 bits of negative zero.
pub const NEGATIVE_ZERO_BITS: u64 = 0x8000000000000000;

/// The defensive reading of the split-confidence setting: a zero, of
/// either sign, stands for 1e-7 rather than for an error; any other value
/// stands for itself.
pub fn effective_split_confidence(bits: u64) -> (r: u64)
    ensures
        r == if bits == 0 || bits == NEGATIVE_ZERO_BITS {
            SPLIT_CONFIDENCE_FLOOR_BITS
        } else {
            bits
        },
{
    if bits == 0 || bits == NEGATIVE_ZERO_BITS {
        SPLIT_CONFIDENCE_FLOOR_BITS
    } else {
        bits
    }
}

pub struct GiniSplitCriterion {}

impl GiniSplitCriterion {
    pub fn new() -> (r: GiniSplitCriterion) {
        GiniSplitCriterion {  }
    }

    /// The merit range, as bits: always one, for every distribution.
    pub fn get_range_of_merit_bits(&self, pre_split_weight_bits: &Vec<u64>) -> (r: u64)
        ensures
            r == ONE_BITS,
    {
        ONE_BITS
    }

    pub fn calc_memory_size(&self) -> (r: usize)
        ensures
            r as nat == clamp_usize(vstd::layout::size_of::<GiniSplitCriterion>()),
    {
        MemoryMeter::measure_root(self)
    }
}

impl MemorySized for GiniSplitCriterion {
    open spec fn spec_inline_size(&self) -> nat {
        vstd::layout::size_of::<GiniSplitCriterion>()
    }

    open spec fn spec_heap_size(&self) -> nat {
        0
    }

    fn inline_size(&self) -> (r: usize) {
        core::mem::size_of::<GiniSplitCriterion>()
    }

    fn extra_heap_size(&self, meter: &mut MemoryMeter) -> (r: usize) {
        0
    }
}

} // verus!
