//! The attribute observer that observes nothing: it marks an attribute as
//! disabled at a leaf.  Observations fall on the floor, the conditional
//! probability it reports is exactly zero, and it never proposes a split.
use crate::instances::AttributeValue;
use crate::memory::{clamp_usize, MemoryMeter, MemorySized};
use vstd::prelude::*;

verus! {

/// The IEEE-754 bits of the 64-bit value zero: the probability the null
/// observer always reports.
pub const ZERO_PROBABILITY_BITS: u64 = 0;

pub struct NullAttributeClassObserver {}

impl NullAttributeClassObserver {
    pub fn new() -> (r: NullAttributeClassObserver) {
        NullAttributeClassObserver {  }
    }

    /// Discards the observation.
    pub fn observe_attribute_class(
        &mut self,
        att_val: Option<AttributeValue>,
        class_val: usize,
        weight_bits: u64,
    )
        ensures
            *final(self) == *old(self),
    {
    }

    /// Always the zero probability, whatever is asked.
    pub fn probability_of_attribute_value_given_class(
        &self,
        att_val: Option<AttributeValue>,
        class_val: usize,
    ) -> (r: Option<u64>)
        ensures
            r == Some(ZERO_PROBABILITY_BITS),
    {
        Some(ZERO_PROBABILITY_BITS)
    }

    /// Never a suggestion, whatever the caller's suggestion type.
    pub fn get_best_evaluated_split_suggestion<T>(&self) -> (r: Option<T>)
        ensures
            r is None,
    {
        None
    }

    pub fn calc_memory_size(&self) -> (r: usize)
        ensures
            r as nat == clamp_usize(vstd::layout::size_of::<NullAttributeClassObserver>()),
    {
        MemoryMeter::measure_root(self)
    }
}

impl MemorySized for NullAttributeClassObserver {
    open spec fn spec_inline_size(&self) -> nat {
        vstd::layout::size_of::<NullAttributeClassObserver>()
    }

    open spec fn spec_heap_size(&self) -> nat {
        0
    }

    fn inline_size(&self) -> (r: usize) {
        core::mem::size_of::<NullAttributeClassObserver>()
    }

    fn extra_heap_size(&self, meter: &mut MemoryMeter) -> (r: usize) {
        0
    }
}

} // verus!
