//! Core of a property-based testing engine: strategies that generate values
//! together with shrink cursors (`ValueTree`), the weighted-union combinator,
//! the strategy for optional values, and the crash-resilient replay log used
//! to recover a worker process's pass/fail/reject history.

pub mod option;
pub mod strategy;
pub mod test_runner;
