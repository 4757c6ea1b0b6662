//! Dense integer matrix multiplication split into one dot-product job per result cell:
//! jobs are built from a row of the left operand and a column of the right one, routed
//! round-robin to workers, answered by a worker step, and written back into their cells
//! by a collector that refuses stray, repeated or missing replies. Keyed counters that
//! can be shared between threads sit beside it.

pub mod collector;
pub mod job;
pub mod matrix;
pub mod metrics;
pub mod text;
pub mod vector;
