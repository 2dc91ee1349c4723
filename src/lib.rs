//! Four ways of evaluating one two-argument recurrence, each proved to
//! return the recurrence's value.

pub mod recurrence;
pub mod cache;
pub mod stack_machine;
pub mod memo;
pub mod suspend;
pub mod tabulation;
pub mod laws;

pub use memo::foo1;
pub use stack_machine::foo2;
pub use tabulation::foo4;
