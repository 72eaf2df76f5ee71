//! Small classifiers for exercising evaluation loops: one that always
//! knows the answer, one that never votes, and one that counts how often
//! it is trained.  Votes are vectors of IEEE-754 bit patterns, one score
//! per class; these stubs only ever emit the bits of zero and one.
use crate::instance_header::InstanceHeader;
use crate::instances::Instance;
use crate::memory::{clamp_usize, MemoryMeter, MemorySized};
use std::sync::atomic::AtomicU64;
use std::sync::Arc;
use vstd::prelude::*;

verus! {

/// The IEEE-754 bits of the 64-bit value one: a full vote.
pub const ONE_VOTE_BITS: u64 = 0x3FF0000000000000;

/// The vote vector the oracle emits: zeros, with a full vote at the true
/// class when it is in range.
pub open spec fn spec_oracle_votes(len: int, class: Option<usize>) -> Seq<u64> {
    let y: int = match class {
        Some(c) => c as int,
        None => 0,
    };
    Seq::new(
        len as nat,
        |i: int|
            if i == y {
                ONE_VOTE_BITS
            } else {
                0u64
            },
    )
}

/// Knows every label in advance: it votes fully for the instance's own
/// class.  The ceiling any evaluator should score as perfect accuracy.
pub struct OracleClassifier {
    pub num_classes: usize,
}

impl Default for OracleClassifier {
    /// An oracle before any context: two classes.
    fn default() -> (r: OracleClassifier)
        ensures
            r.num_classes == 2,
    {
        OracleClassifier { num_classes: 2 }
    }
}

impl OracleClassifier {
    /// A full vote for the instance's class, zero elsewhere; an unreadable
    /// class votes for class zero, as its absent label reads as zero.
    pub fn get_votes_for_instance(&self, instance: &Instance) -> (r: Vec<u64>)
        requires
            self.num_classes < usize::MAX,
        ensures
            r@.len() == if self.num_classes >= 2 {
                self.num_classes as int
            } else {
                2
            },
            r@ == spec_oracle_votes(r@.len() as int, instance.spec_class_value()),
    {
        let y = match instance.class_value() {
            Some(c) => c,
            None => 0,
        };
        let len = if self.num_classes >= 2 {
            self.num_classes
        } else {
            2
        };
        let mut v: Vec<u64> = Vec::new();
        let mut i: usize = 0;
        while i < len
            invariant
                0 <= i <= len,
                v@.len() == i,
                forall|k: int| 0 <= k < i ==> v@[k] == (if k == y {
                    ONE_VOTE_BITS
                } else {
                    0u64
                }),
            decreases len - i,
        {
            if i == y {
                v.push(ONE_VOTE_BITS);
            } else {
                v.push(0);
            }
            i = i + 1;
        }
        proof {
            assert(v@ =~= spec_oracle_votes(len as int, instance.spec_class_value()));
        }
        v
    }

    /// Learns the class count from the header's class attribute; a header
    /// without one leaves two classes.
    pub fn set_model_context(&mut self, header: Arc<InstanceHeader>)
        ensures
            final(self).num_classes == if header.spec_number_of_classes() > 0 {
                header.spec_number_of_classes()
            } else {
                2int
            },
    {
        let n = header.number_of_classes();
        self.num_classes = if n > 0 {
            n
        } else {
            2
        };
    }

    /// The oracle does not learn.
    pub fn train_on_instance(&mut self, instance: &Instance)
        ensures
            *final(self) == *old(self),
    {
    }

    pub fn calc_memory_size(&self) -> (r: usize)
        ensures
            r as nat == clamp_usize(vstd::layout::size_of::<OracleClassifier>()),
    {
        MemoryMeter::measure_root(self)
    }
}

impl MemorySized for OracleClassifier {
    open spec fn spec_inline_size(&self) -> nat {
        vstd::layout::size_of::<OracleClassifier>()
    }

    open spec fn spec_heap_size(&self) -> nat {
        0
    }

    fn inline_size(&self) -> (r: usize) {
        core::mem::size_of::<OracleClassifier>()
    }

    fn extra_heap_size(&self, meter: &mut MemoryMeter) -> (r: usize) {
        0
    }
}

/// Votes for nothing, ever: what an evaluator sees as an abstention.
pub struct ClassifierNoneVotes {}

impl Default for ClassifierNoneVotes {
    fn default() -> (r: ClassifierNoneVotes) {
        ClassifierNoneVotes {  }
    }
}

impl ClassifierNoneVotes {
    pub fn get_votes_for_instance(&self, instance: &Instance) -> (r: Vec<u64>)
        ensures
            r@.len() == 0,
    {
        Vec::new()
    }

    pub fn set_model_context(&mut self, header: Arc<InstanceHeader>)
        ensures
            *final(self) == *old(self),
    {
    }

    pub fn train_on_instance(&mut self, instance: &Instance)
        ensures
            *final(self) == *old(self),
    {
    }

    pub fn calc_memory_size(&self) -> (r: usize)
        ensures
            r as nat == clamp_usize(vstd::layout::size_of::<ClassifierNoneVotes>()),
    {
        MemoryMeter::measure_root(self)
    }
}

impl MemorySized for ClassifierNoneVotes {
    open spec fn spec_inline_size(&self) -> nat {
        vstd::layout::size_of::<ClassifierNoneVotes>()
    }

    open spec fn spec_heap_size(&self) -> nat {
        0
    }

    fn inline_size(&self) -> (r: usize) {
        core::mem::size_of::<ClassifierNoneVotes>()
    }

    fn extra_heap_size(&self, meter: &mut MemoryMeter) -> (r: usize) {
    0
    }
}

/// Observes a training counter that its classifier bumps, from outside the
/// evaluation loop that owns the classifier.
pub struct TrainSpyHandle {
    pub counter: Arc<AtomicU64>,
}

impl TrainSpyHandle {
    /// How many times the spy's classifier has been trained so far.
    pub fn count(&self) -> (r: u64) {
        atomic_load(&self.counter)
    }
}

/// Relies on AtomicU64::load: reads the counter's current value.
#[verifier::external_body]
fn atomic_load(counter: &Arc<AtomicU64>) -> (r: u64) {
    counter.load(std::sync::atomic::Ordering::Relaxed)
}

/// Relies on AtomicU64::fetch_add: adds one to the shared counter.
#[verifier::external_body]
fn atomic_bump(counter: &Arc<AtomicU64>) {
    counter.fetch_add(1, std::sync::atomic::Ordering::Relaxed);
}

/// Relies on AtomicU64::new: a fresh counter at zero.
#[verifier::external_body]
fn new_atomic_counter() -> (r: AtomicU64) {
    AtomicU64::new(0)
}

/// A fresh shared counter at zero.
fn new_shared_counter() -> (r: Arc<AtomicU64>) {
    Arc::new(new_atomic_counter())
}

/// Relies on Arc::clone: a second handle on the same counter.
#[verifier::external_body]
fn clone_counter(counter: &Arc<AtomicU64>) -> (r: Arc<AtomicU64>) {
    Arc::clone(counter)
}

/// Predicts like the oracle but also counts its training calls, reporting
/// them through a shared handle and in its own `trained` field.
pub struct TrainSpyClassifier {
    pub counter: Arc<AtomicU64>,
    pub trained: u64,
    pub num_classes: usize,
}

impl TrainSpyClassifier {
    /// A spy and the handle that watches it.
    pub fn new() -> (r: (TrainSpyClassifier, TrainSpyHandle))
        ensures
            r.0.trained == 0,
            r.0.num_classes == 2,
    {
        let counter = new_shared_counter();
        let handle = TrainSpyHandle { counter: clone_counter(&counter) };
        (TrainSpyClassifier { counter, trained: 0, num_classes: 2 }, handle)
    }

    pub fn get_votes_for_instance(&self, instance: &Instance) -> (r: Vec<u64>)
        requires
            self.num_classes < usize::MAX,
        ensures
            r@.len() == if self.num_classes >= 2 {
                self.num_classes as int
            } else {
                2
            },
            r@ == spec_oracle_votes(r@.len() as int, instance.spec_class_value()),
    {
        let oracle = OracleClassifier { num_classes: self.num_classes };
        oracle.get_votes_for_instance(instance)
    }

    pub fn set_model_context(&mut self, header: Arc<InstanceHeader>)
        ensures
            final(self).num_classes == if header.spec_number_of_classes() > 0 {
                header.spec_number_of_classes()
            } else {
                2int
            },
            final(self).trained == old(self).trained,
    {
        let n = header.number_of_classes();
        self.num_classes = if n > 0 {
            n
        } else {
            2
        };
    }

    /// Training does nothing to the model; it only counts.
    pub fn train_on_instance(&mut self, instance: &Instance)
        requires
            old(self).trained < u64::MAX,
        ensures
            final(self).trained == old(self).trained + 1,
            final(self).num_classes == old(self).num_classes,
    {
        atomic_bump(&self.counter);
        self.trained = self.trained + 1;
    }
}

} // verus!
