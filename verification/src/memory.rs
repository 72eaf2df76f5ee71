//! Deep byte-size accounting for the model structures.
//!
//! Each participating type reports its own stack footprint (`inline_size`)
//! and the bytes its heap allocations occupy (`extra_heap_size`).  The meter
//! carries a set of visit tokens so that callers holding shared structures can
//! count each unique target once; the types of this crate own their data
//! exclusively, so for them every field is measured exactly once.  Heap sizes
//! count the bytes the stored values occupy, not allocator slack, so the
//! result of a measurement is a function of the value alone.
use std::collections::HashSet;
use vstd::prelude::*;

verus! {

broadcast use vstd::std_specs::hash::group_hash_axioms;

/// `n` clamped to what a `usize` can hold; all measuring arithmetic
/// saturates there instead of overflowing.
pub open spec fn clamp_usize(n: nat) -> nat {
    if n > usize::MAX as nat {
        usize::MAX as nat
    } else {
        n
    }
}

pub trait MemorySized {
    /// The stack footprint of the value, as a mathematical size.
    spec fn spec_inline_size(&self) -> nat;

    /// The bytes held behind pointers owned by this value.
    spec fn spec_heap_size(&self) -> nat;

    fn inline_size(&self) -> (r: usize)
        ensures
            r as nat == clamp_usize(self.spec_inline_size()),
    ;

    fn extra_heap_size(&self, meter: &mut MemoryMeter) -> (r: usize)
        ensures
            r as nat == clamp_usize(self.spec_heap_size()),
            final(meter)@ == old(meter)@,
    ;
}

/// Walks an object graph summing sizes, counting each shared target once.
pub struct MemoryMeter {
    visited: HashSet<u64>,
}

impl View for MemoryMeter {
    type V = Set<u64>;

    closed spec fn view(&self) -> Set<u64> {
        self.visited@
    }
}

impl MemoryMeter {
    pub fn new() -> (r: MemoryMeter)
        ensures
            r@ == Set::<u64>::empty(),
    {
        MemoryMeter { visited: HashSet::new() }
    }

    /// Records a visit token; the first visit returns true, later ones false.
    /// Holders of shared structures mark the target before counting it.
    pub fn mark(&mut self, token: u64) -> (r: bool)
        ensures
            final(self)@ == old(self)@.insert(token),
            r == !old(self)@.contains(token),
    {
        self.visited.insert(token)
    }

    /// Total size of `value`: its own footprint plus everything it owns.
    pub fn measure_root<T: MemorySized>(value: &T) -> (r: usize)
        ensures
            r as nat == clamp_usize(value.spec_inline_size() + value.spec_heap_size()),
    {
        let mut meter = MemoryMeter::new();
        let inline = value.inline_size();
        let heap = value.extra_heap_size(&mut meter);
        inline.saturating_add(heap)
    }

    /// Contribution of a field beyond the stack footprint already counted
    /// inside its owner's `inline_size`.
    pub fn measure_field<T: MemorySized>(&mut self, value: &T) -> (r: usize)
        ensures
            r as nat == clamp_usize(value.spec_heap_size()),
            final(self)@ == old(self)@,
    {
        value.extra_heap_size(self)
    }
}

impl MemorySized for u64 {
    open spec fn spec_inline_size(&self) -> nat {
        8
    }

    open spec fn spec_heap_size(&self) -> nat {
        0
    }

    fn inline_size(&self) -> (r: usize) {
        8
    }

    fn extra_heap_size(&self, meter: &mut MemoryMeter) -> (r: usize) {
        0
    }
}

impl MemorySized for u32 {
    open spec fn spec_inline_size(&self) -> nat {
        4
    }

    open spec fn spec_heap_size(&self) -> nat {
        0
    }

    fn inline_size(&self) -> (r: usize) {
        4
    }

    fn extra_heap_size(&self, meter: &mut MemoryMeter) -> (r: usize) {
        0
    }
}

impl MemorySized for usize {
    open spec fn spec_inline_size(&self) -> nat {
        vstd::layout::size_of::<usize>()
    }

    open spec fn spec_heap_size(&self) -> nat {
        0
    }

    fn inline_size(&self) -> (r: usize) {
        core::mem::size_of::<usize>()
    }

    fn extra_heap_size(&self, meter: &mut MemoryMeter) -> (r: usize) {
        0
    }
}

impl MemorySized for bool {
    open spec fn spec_inline_size(&self) -> nat {
        1
    }

    open spec fn spec_heap_size(&self) -> nat {
        0
    }

    fn inline_size(&self) -> (r: usize) {
        1
    }

    fn extra_heap_size(&self, meter: &mut MemoryMeter) -> (r: usize) {
        0
    }
}

impl MemorySized for String {
    open spec fn spec_inline_size(&self) -> nat {
        vstd::layout::size_of::<String>()
    }

    /// A string owns one byte per UTF-8 byte of its contents.
    open spec fn spec_heap_size(&self) -> nat {
        (vstd::utf8::encode_utf8(self@).len() as usize) as nat
    }

    fn inline_size(&self) -> (r: usize) {
        core::mem::size_of::<String>()
    }

    fn extra_heap_size(&self, meter: &mut MemoryMeter) -> (r: usize) {
        self.as_str().len()
    }
}

/// Sum of the heap contributions of the first `n` elements.
pub open spec fn seq_heap_size<T: MemorySized>(s: Seq<T>, n: int) -> nat
    decreases n,
{
    if n <= 0 {
        0
    } else {
        seq_heap_size(s, n - 1) + s[n - 1].spec_heap_size()
    }
}

impl<T: MemorySized> MemorySized for Vec<T> {
    open spec fn spec_inline_size(&self) -> nat {
        vstd::layout::size_of::<Vec<T>>()
    }

    /// A vector owns one slot per element plus what the elements own.
    open spec fn spec_heap_size(&self) -> nat {
        self@.len() * vstd::layout::size_of::<T>() + seq_heap_size(self@, self@.len() as int)
    }

    fn inline_size(&self) -> (r: usize) {
        core::mem::size_of::<Vec<T>>()
    }

    fn extra_heap_size(&self, meter: &mut MemoryMeter) -> (r: usize) {
        let slot = core::mem::size_of::<T>();
        let mut total: usize = match self.len().checked_mul(slot) {
            Some(v) => v,
            None => usize::MAX,
        };
        let mut i: usize = 0;
        while i < self.len()
            invariant
                0 <= i <= self@.len(),
                slot as nat == vstd::layout::size_of::<T>(),
                total as nat == clamp_usize(
                    self@.len() * vstd::layout::size_of::<T>() + seq_heap_size(self@, i as int),
                ),
                meter@ == old(meter)@,
            decreases self@.len() - i,
        {
            let part = meter.measure_field(&self[i]);
            total = total.saturating_add(part);
            i = i + 1;
        }
        total
    }
}

} // verus!
