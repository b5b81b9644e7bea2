//! Differential-testing harness for a bounded binary min-heap that runs as an
//! LC-3 program: a verified reference model of the heap's byte-exact trace,
//! a randomized operation-sequence generator, a case compiler, and a runner
//! that classifies a target's observed behaviour against the model.
pub mod compile;
pub mod gen;
pub mod heap;
pub mod ops;
pub mod runner;
pub mod script;
