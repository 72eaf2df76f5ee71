//! The instance model the tree routes on.
//!
//! A cell is missing or carries a value: a nominal domain index, or a
//! numeric value encoded as its order key.  The order key of a finite
//! 64-bit float is the unsigned integer that compares the way the float
//! does (sign bit set: the bits flipped; otherwise: the bits with the sign
//! bit turned on, negative zero first normalised to zero), so every
//! comparison the tree needs is an integer comparison here.  The instance
//! weight rides along as raw IEEE-754 bits; this crate never interprets
//! them, the learner does.
use vstd::prelude::*;

verus! {

/// One cell of an instance row.
#[derive(Clone, Copy, PartialEq, Eq, Structural, Debug)]
pub enum AttributeValue {
    /// A nominal value: its index in the column's domain.
    Nominal(usize),
    /// A numeric value: its order key.
    Numeric(u64),
}

/// A dense labeled instance: one optional cell per column, the class
/// column's index, and the instance weight as opaque bits.
pub struct Instance {
    pub values: Vec<Option<AttributeValue>>,
    pub class_index: usize,
    pub weight_bits: u64,
}

impl Instance {
    pub open spec fn spec_value_at(&self, index: int) -> Option<AttributeValue> {
        if 0 <= index < self.values@.len() {
            self.values@[index]
        } else {
            None
        }
    }

    /// Is the cell at `index` unusable: out of range or missing?
    pub open spec fn spec_missing_at(&self, index: int) -> bool {
        self.spec_value_at(index) is None
    }

    /// The class label, when the class cell holds a nominal value.
    pub open spec fn spec_class_value(&self) -> Option<usize> {
        match self.spec_value_at(self.class_index as int) {
            Some(AttributeValue::Nominal(v)) => Some(v),
            _ => None,
        }
    }

    pub fn new(values: Vec<Option<AttributeValue>>, class_index: usize, weight_bits: u64) -> (r:
        Instance)
        ensures
            r.values == values,
            r.class_index == class_index,
            r.weight_bits == weight_bits,
    {
        Instance { values, class_index, weight_bits }
    }

    /// The cell at `index`; out-of-range reads nothing.
    pub fn value_at_index(&self, index: usize) -> (r: Option<AttributeValue>)
        ensures
            r == self.spec_value_at(index as int),
    {
        if index < self.values.len() {
            self.values[index]
        } else {
            None
        }
    }

    /// Whether the cell at `index` is missing; out of range counts as
    /// missing.
    pub fn is_missing_at_index(&self, index: usize) -> (r: bool)
        ensures
            r == self.spec_missing_at(index as int),
    {
        self.value_at_index(index).is_none()
    }

    pub fn number_of_attributes(&self) -> (r: usize)
        ensures
            r == self.values@.len(),
    {
        self.values.len()
    }

    pub fn class_index(&self) -> (r: usize)
        ensures
            r == self.class_index,
    {
        self.class_index
    }

    /// The class label of this instance, when its class cell is nominal.
    pub fn class_value(&self) -> (r: Option<usize>)
        ensures
            r == self.spec_class_value(),
    {
        match self.value_at_index(self.class_index) {
            Some(AttributeValue::Nominal(v)) => Some(v),
            _ => None,
        }
    }

    pub fn weight_bits(&self) -> (r: u64)
        ensures
            r == self.weight_bits,
    {
        self.weight_bits
    }
}

} // verus!
