//! An online Hoeffding-family decision-tree learner's verifiable core: the
//! ARFF header grammar, the instance and attribute model, the conditional
//! tests split nodes route by, the shape and accounting of the growing
//! tree, the memory meter, and the cadence of prequential evaluation.
//! Floating-point statistics (class-count weights, Gaussian summaries,
//! merit scores) ride beside these structures as opaque IEEE-754 bit
//! patterns or order keys; the arithmetic on them lives with the runtime
//! that embeds this crate.
pub mod arff;
pub mod attributes;
pub mod choices;
pub mod cli;
pub mod conditional_tests;
pub mod instance_header;
pub mod instances;
pub mod memory;
pub mod observers;
pub mod schedule;
pub mod split_criteria;
pub mod testing;
pub mod text;
pub mod tree;
