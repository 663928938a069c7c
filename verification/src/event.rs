//! The events that the inspector emits.

use crate::entity::EntityMutation;
use crate::entity::EntityMutationView;
use crate::schedule::ScheduleInfo;
use crate::schedule::ScheduleInfoView;
use serde_json::Value;
use vstd::prelude::*;

verus! {

/// One event of the stream that the inspector hands to its sink.
#[derive(Debug, PartialEq)]
pub enum InspectorEvent {
    /// Something happened to the entity with this identifier.
    Entity { entity: u64, mutation: EntityMutation },
    /// The schedules, in their configured order. Sent once.
    Schedules { schedules: Vec<ScheduleInfo> },
}

/// What an [`InspectorEvent`] stands for.
pub enum InspectorEventView {
    Entity { entity: u64, mutation: EntityMutationView },
    Schedules { schedules: Seq<ScheduleInfoView> },
}

/// The views of a list of schedule snapshots.
pub open spec fn schedule_views(schedules: Seq<ScheduleInfo>) -> Seq<ScheduleInfoView> {
    schedules.map_values(|schedule: ScheduleInfo| schedule@)
}

impl View for InspectorEvent {
    type V = InspectorEventView;

    open spec fn view(&self) -> InspectorEventView {
        match *self {
            InspectorEvent::Entity { entity, mutation } => InspectorEventView::Entity {
                entity,
                mutation: mutation@,
            },
            InspectorEvent::Schedules { schedules } => InspectorEventView::Schedules {
                schedules: schedule_views(schedules@),
            },
        }
    }
}

/// The views of a list of events.
pub open spec fn event_views(events: Seq<InspectorEvent>) -> Seq<InspectorEventView> {
    events.map_values(|event: InspectorEvent| event@)
}

/// The event that reports the removal of `entity`.
pub open spec fn removal(entity: u64) -> InspectorEventView {
    InspectorEventView::Entity { entity, mutation: EntityMutationView::Remove }
}

/// The event that reports `changes` on `entity`.
pub open spec fn change(
    entity: u64,
    changes: Seq<(Seq<char>, Option<Value>)>,
) -> InspectorEventView {
    InspectorEventView::Entity { entity, mutation: EntityMutationView::Change(changes) }
}

/// Appending one event appends its view.
pub proof fn lemma_event_views_push(events: Seq<InspectorEvent>, event: InspectorEvent)
    ensures
        event_views(events.push(event)) == event_views(events).push(event@),
{
    assert(event_views(events.push(event)) =~= event_views(events).push(event@));
}

} // verus!
