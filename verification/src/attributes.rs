//! Attribute descriptors: a column of an instance is either nominal, with a
//! fixed domain of labels, or numeric.
use crate::memory::{clamp_usize, MemoryMeter, MemorySized};
use crate::text::str_eq;
use std::collections::HashMap;
use vstd::prelude::*;

verus! {

/// The text `", "` placed between nominal labels when writing a header line.
pub open spec fn spec_join_comma(vs: Seq<Seq<char>>) -> Seq<char>
    decreases vs.len(),
{
    if vs.len() == 0 {
        Seq::<char>::empty()
    } else if vs.len() == 1 {
        vs[0]
    } else {
        spec_join_comma(vs.take(vs.len() - 1)) + ", "@ + vs[vs.len() - 1]
    }
}

/// Joins the labels with `", "`.
pub fn join_comma(vs: &Vec<String>) -> (r: String)
    ensures
        r@ == spec_join_comma(vs.deep_view()),
{
    let mut acc = String::new();
    let mut i: usize = 0;
    while i < vs.len()
        invariant
            0 <= i <= vs@.len(),
            acc@ == spec_join_comma(vs.deep_view().take(i as int)),
        decreases vs@.len() - i,
    {
        if i > 0 {
            acc.append(", ");
        }
        acc.append(vs[i].as_str());
        proof {
            let dv = vs.deep_view();
            assert(dv.take(i + 1).take(i as int) =~= dv.take(i as int));
            assert(dv.take(i + 1)[i as int] =~= dv[i as int]);
            if i == 0 {
                assert(acc@ =~= spec_join_comma(dv.take(i + 1)));
            } else {
                assert(acc@ =~= spec_join_comma(dv.take(i + 1)));
            }
        }
        i = i + 1;
    }
    proof {
        assert(vs.deep_view().take(vs@.len() as int) =~= vs.deep_view());
    }
    acc
}

/// A nominal attribute: a name and the ordered domain of labels; the map
/// caches each label's index for constant-time lookups while streaming.
#[derive(Debug)]
pub struct NominalAttribute {
    pub name: String,
    pub values: Vec<String>,
    pub label_to_index: HashMap<String, usize>,
}

impl NominalAttribute {
    /// A nominal attribute with an empty domain.
    pub fn new(name: String) -> (r: NominalAttribute)
        ensures
            r.name == name,
            r.values@.len() == 0,
    {
        NominalAttribute { name, values: Vec::new(), label_to_index: HashMap::new() }
    }

    pub fn with_values(name: String, values: Vec<String>, label_to_index: HashMap<String, usize>)
        -> (r: NominalAttribute)
        ensures
            r.name == name,
            r.values == values,
            r.label_to_index == label_to_index,
    {
        NominalAttribute { name, values, label_to_index }
    }

    /// A copy of the domain labels, in order.
    pub fn get_attribute_values(&self) -> (r: Vec<String>)
        ensures
            r.deep_view() == self.values.deep_view(),
    {
        let mut out: Vec<String> = Vec::new();
        let mut i: usize = 0;
        while i < self.values.len()
            invariant
                0 <= i <= self.values@.len(),
                out@.len() == i,
                forall|j: int| 0 <= j < i ==> out@[j]@ == self.values@[j]@,
            decreases self.values@.len() - i,
        {
            let s: String = self.values[i].clone();
            out.push(s);
            i = i + 1;
        }
        proof {
            assert forall|j: int| 0 <= j < out@.len() implies out.deep_view()[j]
                == self.values.deep_view()[j] by {
                assert(out@[j]@ == self.values@[j]@);
            }
            assert(out.deep_view() =~= self.values.deep_view());
        }
        out
    }

    /// Index of the first label equal to `v`, if the domain holds it.
    pub fn index_of_value_mut(&mut self, v: &str) -> (r: Option<usize>)
        ensures
            *final(self) == *old(self),
            match r {
                Some(i) => i < old(self).values@.len() && old(self).values.deep_view()[i as int]
                    == v@ && (forall|j: int| 0 <= j < i ==> old(self).values.deep_view()[j] != v@),
                None => forall|j: int|
                    0 <= j < old(self).values@.len() ==> old(self).values.deep_view()[j] != v@,
            },
    {
        let mut i: usize = 0;
        while i < self.values.len()
            invariant
                0 <= i <= self.values@.len(),
                forall|j: int| 0 <= j < i ==> self.values.deep_view()[j] != v@,
            decreases self.values@.len() - i,
        {
            if str_eq(self.values[i].as_str(), v) {
                return Some(i);
            }
            i = i + 1;
        }
        None
    }

    /// The domain labels paired with their indices.
    pub fn enumerate_values(&self) -> (r: Vec<(usize, String)>)
        ensures
            r@.len() == self.values@.len(),
            forall|i: int| 0 <= i < r@.len() ==> r@[i].0 == i && r@[i].1@ == self.values@[i]@,
    {
        let mut out: Vec<(usize, String)> = Vec::new();
        let mut i: usize = 0;
        while i < self.values.len()
            invariant
                0 <= i <= self.values@.len(),
                out@.len() == i,
                forall|j: int| 0 <= j < i ==> out@[j].0 == j && out@[j].1@ == self.values@[j]@,
            decreases self.values@.len() - i,
        {
            let entry = (i, self.values[i].clone());
            proof {
                assert(entry.1 == self.values@[i as int]);
            }
            out.push(entry);
            i = i + 1;
        }
        out
    }
}

/// A numeric attribute: a name and, for synthetic headers, a set of seed
/// values.
#[derive(Debug)]
pub struct NumericAttribute {
    pub name: String,
    pub values: Vec<u32>,
}

impl NumericAttribute {
    pub fn new(name: String) -> (r: NumericAttribute)
        ensures
            r.name == name,
            r.values@.len() == 0,
    {
        NumericAttribute { name, values: Vec::new() }
    }

    pub fn with_values(name: String, values: Vec<u32>) -> (r: NumericAttribute)
        ensures
            r.name == name,
            r.values == values,
    {
        NumericAttribute { name, values }
    }
}

/// A column descriptor; the header stores one per column.
#[derive(Debug)]
pub enum Attribute {
    Nominal(NominalAttribute),
    Numeric(NumericAttribute),
}

/// The header line that describes a nominal attribute.
pub open spec fn spec_nominal_repr(name: Seq<char>, values: Seq<Seq<char>>) -> Seq<char> {
    "@attribute "@ + name + " { "@ + spec_join_comma(values) + " }"@
}

/// The header line that describes a numeric attribute.
pub open spec fn spec_numeric_repr(name: Seq<char>) -> Seq<char> {
    "@attribute "@ + name + " numeric"@
}

impl Attribute {
    pub open spec fn spec_name(&self) -> Seq<char> {
        match self {
            Attribute::Nominal(a) => a.name@,
            Attribute::Numeric(a) => a.name@,
        }
    }

    /// The serialized header line for this attribute.
    pub open spec fn spec_arff_representation(&self) -> Seq<char> {
        match self {
            Attribute::Nominal(a) => spec_nominal_repr(a.name@, a.values.deep_view()),
            Attribute::Numeric(a) => spec_numeric_repr(a.name@),
        }
    }

    pub fn name(&self) -> (r: String)
        ensures
            r@ == self.spec_name(),
    {
        match self {
            Attribute::Nominal(a) => a.name.clone(),
            Attribute::Numeric(a) => a.name.clone(),
        }
    }

    /// Writes the `@attribute` line this descriptor came from.
    pub fn arff_representation(&self) -> (r: String)
        ensures
            r@ == self.spec_arff_representation(),
    {
        match self {
            Attribute::Nominal(a) => {
                let mut out = String::from_str("@attribute ");
                out.append(a.name.as_str());
                out.append(" { ");
                let joined = join_comma(&a.values);
                out.append(joined.as_str());
                out.append(" }");
                out
            },
            Attribute::Numeric(a) => {
                let mut out = String::from_str("@attribute ");
                out.append(a.name.as_str());
                out.append(" numeric");
                out
            },
        }
    }

    pub fn calc_memory_size(&self) -> (r: usize)
        ensures
            r as nat == clamp_usize(self.spec_inline_size() + self.spec_heap_size()),
    {
        MemoryMeter::measure_root(self)
    }
}

impl MemorySized for NominalAttribute {
    open spec fn spec_inline_size(&self) -> nat {
        vstd::layout::size_of::<NominalAttribute>()
    }

    /// Counts the name, the label vector, and one table slot per cached
    /// index; the key text itself is counted once, under `values`.
    open spec fn spec_heap_size(&self) -> nat {
        self.name.spec_heap_size() + vstd::layout::size_of::<Vec<String>>()
            + self.values.spec_heap_size() + (vstd::std_specs::hash::spec_hash_map_len(
            &self.label_to_index,
        ) as nat) * vstd::layout::size_of::<(String, usize)>()
    }

    fn inline_size(&self) -> (r: usize) {
        core::mem::size_of::<NominalAttribute>()
    }

    fn extra_heap_size(&self, meter: &mut MemoryMeter) -> (r: usize) {
        let mut total: usize = meter.measure_field(&self.name);
        total = total.saturating_add(self.values.inline_size());
        total = total.saturating_add(meter.measure_field(&self.values));
        let slots = match self.label_to_index.len().checked_mul(core::mem::size_of::<(
            String,
            usize,
        )>()) {
            Some(v) => v,
            None => usize::MAX,
        };
        total = total.saturating_add(slots);
        total
    }
}

impl MemorySized for NumericAttribute {
    open spec fn spec_inline_size(&self) -> nat {
        vstd::layout::size_of::<NumericAttribute>()
    }

    open spec fn spec_heap_size(&self) -> nat {
        self.name.spec_heap_size() + vstd::layout::size_of::<Vec<u32>>()
            + self.values.spec_heap_size()
    }

    fn inline_size(&self) -> (r: usize) {
        core::mem::size_of::<NumericAttribute>()
    }

    fn extra_heap_size(&self, meter: &mut MemoryMeter) -> (r: usize) {
        let mut total: usize = meter.measure_field(&self.name);
        total = total.saturating_add(self.values.inline_size());
        total = total.saturating_add(meter.measure_field(&self.values));
        total
    }
}

impl MemorySized for Attribute {
    open spec fn spec_inline_size(&self) -> nat {
        vstd::layout::size_of::<Attribute>()
    }

    open spec fn spec_heap_size(&self) -> nat {
        match self {
            Attribute::Nominal(a) => a.spec_heap_size(),
            Attribute::Numeric(a) => a.spec_heap_size(),
        }
    }

    fn inline_size(&self) -> (r: usize) {
        core::mem::size_of::<Attribute>()
    }

    fn extra_heap_size(&self, meter: &mut MemoryMeter) -> (r: usize) {
        match self {
            Attribute::Nominal(a) => a.extra_heap_size(meter),
            Attribute::Numeric(a) => a.extra_heap_size(meter),
        }
    }
}

} // verus!
