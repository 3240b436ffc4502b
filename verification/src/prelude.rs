//! The items that most users need, for one import.

pub use crate::context::{Done, Event, HostRegistry, Outcome, Payload, TickContext};
pub use crate::entity::{Anomaly, EntityRecord, StepOutcome};
pub use crate::machine::{ConfigError, Edge, StateMachine, StateMachineBuilder, TargetFactory};
pub use crate::set::StateSet;
pub use crate::state::{StateId, StateMarker, StateMatcher};
pub use crate::trigger::{always, done, elapsed, input, never, on_event, Trigger};
pub use crate::world::World;
