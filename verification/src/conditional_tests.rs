//! Conditional tests: the instance-to-branch mappings split nodes route by.
//!
//! Every test answers with a branch index, or with nothing when the
//! attribute it reads is missing.  The nominal binary test maps its
//! model-attribute index to the instance column itself; the multiway and
//! numeric tests read the index they were given, and their callers map.
use crate::instances::{AttributeValue, Instance};
use crate::memory::{clamp_usize, MemoryMeter, MemorySized};
use vstd::prelude::*;

verus! {

/// Routes branch 0 when the attribute equals one nominal value, branch 1
/// otherwise.
#[derive(Clone, PartialEq, Eq, Structural, Debug)]
pub struct NominalAttributeBinaryTest {
    pub attribute_index: usize,
    pub attribute_value: usize,
}

/// Routes each nominal value to the branch of its own index.
#[derive(Clone, PartialEq, Eq, Structural, Debug)]
pub struct NominalAttributeMultiwayTest {
    pub attribute_index: usize,
}

/// Routes branch 0 below a numeric threshold, branch 1 above; the threshold
/// is held as an order key, and a value equal to it goes to branch 0 or 1
/// as configured.
#[derive(Clone, PartialEq, Eq, Structural, Debug)]
pub struct NumericAttributeBinaryTest {
    pub attribute_index: usize,
    pub attribute_value: u64,
    pub equals_passes_test: bool,
}

impl NominalAttributeBinaryTest {
    /// The branch: the model index is first mapped past the class column;
    /// a missing or non-nominal cell routes nowhere.
    pub open spec fn spec_branch(&self, inst: &Instance) -> Option<usize> {
        let index = if self.attribute_index < inst.class_index {
            self.attribute_index as int
        } else {
            self.attribute_index + 1
        };
        if inst.spec_missing_at(index) {
            None
        } else {
            match inst.spec_value_at(index) {
                Some(AttributeValue::Nominal(v)) => if v == self.attribute_value {
                    Some(0usize)
                } else {
                    Some(1usize)
                },
                _ => Some(1usize),
            }
        }
    }

    pub fn new(attribute_index: usize, attribute_value: usize) -> (r: NominalAttributeBinaryTest)
        ensures
            r.attribute_index == attribute_index,
            r.attribute_value == attribute_value,
    {
        NominalAttributeBinaryTest { attribute_index, attribute_value }
    }

    pub fn branch_for_instance(&self, instance: &Instance) -> (r: Option<usize>)
        requires
            self.attribute_index < usize::MAX,
        ensures
            r == self.spec_branch(instance),
    {
        let index = if self.attribute_index < instance.class_index() {
            self.attribute_index
        } else {
            self.attribute_index + 1
        };
        if instance.is_missing_at_index(index) {
            return None;
        }
        match instance.value_at_index(index) {
            Some(AttributeValue::Nominal(v)) => if v == self.attribute_value {
                Some(0)
            } else {
                Some(1)
            },
            _ => Some(1),
        }
    }

    /// Known means the instance is routed, and to branch 0.
    pub fn result_known_for_instance(&self, instance: &Instance) -> (r: bool)
        requires
            self.attribute_index < usize::MAX,
        ensures
            r == (self.spec_branch(instance) == Some(0usize)),
    {
        match self.branch_for_instance(instance) {
            Some(b) => b == 0,
            None => false,
        }
    }

    pub fn max_branches(&self) -> (r: usize)
        ensures
            r == 2,
    {
        2
    }

    /// The model attributes the test reads.
    pub fn get_atts_test_depends_on(&self) -> (r: Vec<usize>)
        ensures
            r@ == seq![self.attribute_index],
    {
        let mut v: Vec<usize> = Vec::new();
        v.push(self.attribute_index);
        proof {
            assert(v@ =~= seq![self.attribute_index]);
        }
        v
    }

    pub fn calc_memory_size(&self) -> (r: usize)
        ensures
            r as nat == clamp_usize(vstd::layout::size_of::<NominalAttributeBinaryTest>()),
    {
        MemoryMeter::measure_root(self)
    }
}

impl MemorySized for NominalAttributeBinaryTest {
    open spec fn spec_inline_size(&self) -> nat {
        vstd::layout::size_of::<NominalAttributeBinaryTest>()
    }

    open spec fn spec_heap_size(&self) -> nat {
        0
    }

    fn inline_size(&self) -> (r: usize) {
        core::mem::size_of::<NominalAttributeBinaryTest>()
    }

    fn extra_heap_size(&self, meter: &mut MemoryMeter) -> (r: usize) {
        0
    }
}

impl NominalAttributeMultiwayTest {
    /// The branch: the nominal value's own index; a missing or non-nominal
    /// cell routes nowhere.
    pub open spec fn spec_branch(&self, inst: &Instance) -> Option<usize> {
        if inst.spec_missing_at(self.attribute_index as int) {
            None
        } else {
            match inst.spec_value_at(self.attribute_index as int) {
                Some(AttributeValue::Nominal(v)) => Some(v),
                _ => None,
            }
        }
    }

    pub fn new(attribute_index: usize) -> (r: NominalAttributeMultiwayTest)
        ensures
            r.attribute_index == attribute_index,
    {
        NominalAttributeMultiwayTest { attribute_index }
    }

    pub fn branch_for_instance(&self, instance: &Instance) -> (r: Option<usize>)
        ensures
            r == self.spec_branch(instance),
    {
        if instance.is_missing_at_index(self.attribute_index) {
            return None;
        }
        match instance.value_at_index(self.attribute_index) {
            Some(AttributeValue::Nominal(v)) => Some(v),
            _ => None,
        }
    }

    pub fn result_known_for_instance(&self, instance: &Instance) -> (r: bool)
        ensures
            r == (self.spec_branch(instance) == Some(0usize)),
    {
        match self.branch_for_instance(instance) {
            Some(b) => b == 0,
            None => false,
        }
    }

    /// A multiway split grows a branch per value: no static bound.
    pub fn max_branches(&self) -> (r: usize)
        ensures
            r == usize::MAX,
    {
        usize::MAX
    }

    pub fn get_atts_test_depends_on(&self) -> (r: Vec<usize>)
        ensures
            r@ == seq![self.attribute_index],
    {
        let mut v: Vec<usize> = Vec::new();
        v.push(self.attribute_index);
        proof {
            assert(v@ =~= seq![self.attribute_index]);
        }
        v
    }

    pub fn calc_memory_size(&self) -> (r: usize)
        ensures
            r as nat == clamp_usize(vstd::layout::size_of::<NominalAttributeMultiwayTest>()),
    {
        MemoryMeter::measure_root(self)
    }
}

impl MemorySized for NominalAttributeMultiwayTest {
    open spec fn spec_inline_size(&self) -> nat {
        vstd::layout::size_of::<NominalAttributeMultiwayTest>()
    }

    open spec fn spec_heap_size(&self) -> nat {
        0
    }

    fn inline_size(&self) -> (r: usize) {
        core::mem::size_of::<NominalAttributeMultiwayTest>()
    }

    fn extra_heap_size(&self, meter: &mut MemoryMeter) -> (r: usize) {
        0
    }
}

impl NumericAttributeBinaryTest {
    /// The branch: order keys compare the way the numbers do, so below the
    /// threshold is branch 0, above is branch 1, and equality goes where
    /// the flag sends it.  A missing or non-numeric cell routes nowhere.
    pub open spec fn spec_branch(&self, inst: &Instance) -> Option<usize> {
        if inst.spec_missing_at(self.attribute_index as int) {
            None
        } else {
            match inst.spec_value_at(self.attribute_index as int) {
                Some(AttributeValue::Numeric(key)) => if key == self.attribute_value {
                    if self.equals_passes_test {
                        Some(0usize)
                    } else {
                        Some(1usize)
                    }
                } else if key < self.attribute_value {
                    Some(0usize)
                } else {
                    Some(1usize)
                },
                _ => None,
            }
        }
    }

    pub fn new(attribute_index: usize, attribute_value: u64, equals_passes_test: bool) -> (r:
        NumericAttributeBinaryTest)
        ensures
            r.attribute_index == attribute_index,
            r.attribute_value == attribute_value,
            r.equals_passes_test == equals_passes_test,
    {
        NumericAttributeBinaryTest { attribute_index, attribute_value, equals_passes_test }
    }

    pub fn branch_for_instance(&self, instance: &Instance) -> (r: Option<usize>)
        ensures
            r == self.spec_branch(instance),
    {
        if instance.is_missing_at_index(self.attribute_index) {
            return None;
        }
        match instance.value_at_index(self.attribute_index) {
            Some(AttributeValue::Numeric(key)) => {
                if key == self.attribute_value {
                    Some(if self.equals_passes_test { 0 } else { 1 })
                } else if key < self.attribute_value {
                    Some(0)
                } else {
                    Some(1)
                }
            },
            _ => None,
        }
    }

    pub fn result_known_for_instance(&self, instance: &Instance) -> (r: bool)
        ensures
            r == (self.spec_branch(instance) == Some(0usize)),
    {
        match self.branch_for_instance(instance) {
            Some(b) => b == 0,
            None => false,
        }
    }

    pub fn max_branches(&self) -> (r: usize)
        ensures
            r == 2,
    {
        2
    }

    pub fn get_atts_test_depends_on(&self) -> (r: Vec<usize>)
        ensures
            r@ == seq![self.attribute_index],
    {
        let mut v: Vec<usize> = Vec::new();
        v.push(self.attribute_index);
        proof {
            assert(v@ =~= seq![self.attribute_index]);
        }
        v
    }

    pub fn calc_memory_size(&self) -> (r: usize)
        ensures
            r as nat == clamp_usize(vstd::layout::size_of::<NumericAttributeBinaryTest>()),
    {
        MemoryMeter::measure_root(self)
    }
}

impl MemorySized for NumericAttributeBinaryTest {
    open spec fn spec_inline_size(&self) -> nat {
        vstd::layout::size_of::<NumericAttributeBinaryTest>()
    }

    open spec fn spec_heap_size(&self) -> nat {
        0
    }

    fn inline_size(&self) -> (r: usize) {
        core::mem::size_of::<NumericAttributeBinaryTest>()
    }

    fn extra_heap_size(&self, meter: &mut MemoryMeter) -> (r: usize) {
        0
    }
}

/// Any of the three tests, as a split node stores one.
#[derive(Clone, PartialEq, Eq, Structural, Debug)]
pub enum InstanceConditionalTest {
    NominalBinary(NominalAttributeBinaryTest),
    NominalMultiway(NominalAttributeMultiwayTest),
    NumericBinary(NumericAttributeBinaryTest),
}

impl InstanceConditionalTest {
    pub open spec fn spec_branch(&self, inst: &Instance) -> Option<usize> {
        match self {
            InstanceConditionalTest::NominalBinary(t) => t.spec_branch(inst),
            InstanceConditionalTest::NominalMultiway(t) => t.spec_branch(inst),
            InstanceConditionalTest::NumericBinary(t) => t.spec_branch(inst),
        }
    }

    pub open spec fn spec_attribute_index(&self) -> usize {
        match self {
            InstanceConditionalTest::NominalBinary(t) => t.attribute_index,
            InstanceConditionalTest::NominalMultiway(t) => t.attribute_index,
            InstanceConditionalTest::NumericBinary(t) => t.attribute_index,
        }
    }

    pub fn branch_for_instance(&self, instance: &Instance) -> (r: Option<usize>)
        requires
            self.spec_attribute_index() < usize::MAX,
        ensures
            r == self.spec_branch(instance),
    {
        match self {
            InstanceConditionalTest::NominalBinary(t) => t.branch_for_instance(instance),
            InstanceConditionalTest::NominalMultiway(t) => t.branch_for_instance(instance),
            InstanceConditionalTest::NumericBinary(t) => t.branch_for_instance(instance),
        }
    }

    pub fn result_known_for_instance(&self, instance: &Instance) -> (r: bool)
        requires
            self.spec_attribute_index() < usize::MAX,
        ensures
            r == (self.spec_branch(instance) == Some(0usize)),
    {
        match self {
            InstanceConditionalTest::NominalBinary(t) => t.result_known_for_instance(instance),
            InstanceConditionalTest::NominalMultiway(t) => t.result_known_for_instance(instance),
            InstanceConditionalTest::NumericBinary(t) => t.result_known_for_instance(instance),
        }
    }

    pub fn max_branches(&self) -> (r: usize)
        ensures
            r == match self {
                InstanceConditionalTest::NominalBinary(_) => 2usize,
                InstanceConditionalTest::NominalMultiway(_) => usize::MAX,
                InstanceConditionalTest::NumericBinary(_) => 2usize,
            },
    {
        match self {
            InstanceConditionalTest::NominalBinary(t) => t.max_branches(),
            InstanceConditionalTest::NominalMultiway(t) => t.max_branches(),
            InstanceConditionalTest::NumericBinary(t) => t.max_branches(),
        }
    }

    pub fn get_atts_test_depends_on(&self) -> (r: Vec<usize>)
        ensures
            r@ == seq![self.spec_attribute_index()],
    {
        match self {
            InstanceConditionalTest::NominalBinary(t) => t.get_atts_test_depends_on(),
            InstanceConditionalTest::NominalMultiway(t) => t.get_atts_test_depends_on(),
            InstanceConditionalTest::NumericBinary(t) => t.get_atts_test_depends_on(),
        }
    }
}

} // verus!
