//! Change tracking for a tick-stepped entity-component store, and one-time
//! extraction of a scheduler's set-membership and ordering graphs.
//!
//! Every function in this crate is verified with Verus against the contract in
//! its header. The few items whose contracts are assumed rather than proved are
//! the ones that call into `bevy`, `petgraph` and `serde_json`; each says so in
//! its documentation.

pub mod capture;
pub mod entity;
pub mod entity_laws;
pub mod event;
pub mod graph;
pub mod schedule;
pub mod schedule_laws;
pub mod state;
pub mod tick;
pub mod value;
pub mod wire;

pub use capture::ClonedMainScheduleOrder;
pub use capture::FixedMainScheduleOrder;
pub use capture::ScheduleRef;
pub use capture::UpdateSchedule;
pub use entity::EntityMutation;
pub use entity::LiveComponent;
pub use entity::LiveEntity;
pub use entity::LiveStore;
pub use entity::ZeroSizedTypes;
pub use event::InspectorEvent;
pub use graph::NodeId;
pub use schedule::Schedule;
pub use schedule::ScheduleInfo;
pub use schedule::SetInfo;
pub use schedule::SystemInfo;
pub use state::TrackedData;
