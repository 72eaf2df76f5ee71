//! The immutable description of a stream's columns: relation name, ordered
//! attribute list, and which column carries the class label.
use crate::attributes::Attribute;
use crate::memory::{clamp_usize, MemoryMeter, MemorySized};
use crate::text::str_eq;
use vstd::prelude::*;

verus! {

#[derive(Debug)]
pub struct InstanceHeader {
    pub relation_name: String,
    pub attributes: Vec<Attribute>,
    pub class_index: usize,
}

impl InstanceHeader {
    /// How many classes the header admits: the domain size of the class
    /// attribute when it is nominal and in range, otherwise none.
    pub open spec fn spec_number_of_classes(&self) -> int {
        if self.class_index < self.attributes@.len() {
            match self.attributes@[self.class_index as int] {
                Attribute::Nominal(a) => a.values@.len() as int,
                Attribute::Numeric(_) => 0,
            }
        } else {
            0
        }
    }

    pub fn new(relation_name: String, attributes: Vec<Attribute>, class_index: usize) -> (r:
        InstanceHeader)
        ensures
            r.relation_name@ == relation_name@,
            r.attributes == attributes,
            r.spec_class_index() == class_index,
    {
        InstanceHeader { relation_name, attributes, class_index }
    }

    pub open spec fn spec_class_index(&self) -> int {
        self.class_index as int
    }

    pub open spec fn spec_relation_name(&self) -> Seq<char> {
        self.relation_name@
    }

    /// The attribute stored at `index`; the caller keeps `index` in range.
    pub fn class_attribute(&self, index: usize) -> (r: &Attribute)
        requires
            index < self.attributes@.len(),
        ensures
            r == self.attributes@[index as int],
    {
        &self.attributes[index]
    }

    pub fn number_of_attributes(&self) -> (r: usize)
        ensures
            r == self.attributes@.len(),
    {
        self.attributes.len()
    }

    pub fn relation_name(&self) -> (r: &str)
        ensures
            r@ == self.spec_relation_name(),
    {
        self.relation_name.as_str()
    }

    /// The attribute at `index`, or nothing when `index` is out of range.
    pub fn attribute_at_index(&self, index: usize) -> (r: Option<&Attribute>)
        ensures
            match r {
                Some(a) => index < self.attributes@.len() && a == self.attributes@[index as int],
                None => index >= self.attributes@.len(),
            },
    {
        if index < self.attributes.len() {
            Some(&self.attributes[index])
        } else {
            None
        }
    }

    /// Index of the first attribute whose name is `name`, if any.
    pub fn index_of_attribute(&self, name: &str) -> (r: Option<usize>)
        ensures
            match r {
                Some(i) => i < self.attributes@.len() && self.attributes@[i as int].spec_name()
                    == name@ && (forall|j: int|
                    0 <= j < i ==> self.attributes@[j].spec_name() != name@),
                None => forall|j: int|
                    0 <= j < self.attributes@.len() ==> self.attributes@[j].spec_name() != name@,
            },
    {
        let mut i: usize = 0;
        while i < self.attributes.len()
            invariant
                0 <= i <= self.attributes@.len(),
                forall|j: int| 0 <= j < i ==> self.attributes@[j].spec_name() != name@,
            decreases self.attributes@.len() - i,
        {
            let a_name = self.attributes[i].name();
            if str_eq(a_name.as_str(), name) {
                return Some(i);
            }
            i = i + 1;
        }
        None
    }

    pub fn class_index(&self) -> (r: usize)
        ensures
            r == self.spec_class_index(),
    {
        self.class_index
    }

    /// The number of classes: the class attribute's domain size when that
    /// column exists and is nominal, zero otherwise.
    pub fn number_of_classes(&self) -> (r: usize)
        ensures
            r == self.spec_number_of_classes(),
    {
        if self.class_index < self.attributes.len() {
            match &self.attributes[self.class_index] {
                Attribute::Nominal(a) => a.values.len(),
                Attribute::Numeric(_) => 0,
            }
        } else {
            0
        }
    }

    pub fn calc_memory_size(&self) -> (r: usize)
        ensures
            r as nat == clamp_usize(self.spec_inline_size() + self.spec_heap_size()),
    {
        MemoryMeter::measure_root(self)
    }
}

impl MemorySized for InstanceHeader {
    open spec fn spec_inline_size(&self) -> nat {
        vstd::layout::size_of::<InstanceHeader>()
    }

    open spec fn spec_heap_size(&self) -> nat {
        self.relation_name.spec_heap_size() + self.attributes.spec_heap_size()
    }

    fn inline_size(&self) -> (r: usize) {
        core::mem::size_of::<InstanceHeader>()
    }

    fn extra_heap_size(&self, meter: &mut MemoryMeter) -> (r: usize) {
        let a = meter.measure_field(&self.relation_name);
        let b = meter.measure_field(&self.attributes);
        a.saturating_add(b)
    }
}

} // verus!
