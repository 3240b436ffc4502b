//! Per-entity finite-state machines for a ticked simulation.
//!
//! Every entity owns a transition table: its current state and an ordered list
//! of edges, each made of a source-state matcher, a trigger and a target-state
//! factory. Once per tick the evaluator walks the edges that match the current
//! state, applies the first one whose trigger is satisfied, and swaps the
//! entity's state marker. A done marker signals that a state has finished its
//! work; it is visible to the triggers of one tick and is cleared afterwards.
//!
//! The host's component storage is modelled by plain values, so that the whole
//! evaluator is a function from values to values:
//!
//! - [`state`]: state identities, state markers and source-state matchers;
//! - [`context`]: what triggers read and yield;
//! - [`trigger`]: the trigger algebra and its evaluation;
//! - [`latch`]: the memory of sequencing triggers;
//! - [`machine`]: edges, target factories, the table and its builder;
//! - [`reach`]: which states an entity can be in;
//! - [`entity`]: the components of one entity and its evaluation for one tick;
//! - [`world`]: the transition pass over all entities and the cleanup;
//! - [`set`]: the order of the two phases;
//! - [`guarantees`]: what holds of every tick.

pub mod context;
pub mod entity;
pub mod guarantees;
pub mod latch;
pub mod machine;
pub mod prelude;
pub mod reach;
pub mod set;
pub mod state;
pub mod trigger;
pub mod world;
