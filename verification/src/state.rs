//! What the inspector remembers between two observations.

use crate::event::schedule_views;
use crate::schedule::ScheduleInfo;
use crate::schedule::ScheduleInfoView;
use std::collections::HashMap;
use std::collections::HashSet;
use vstd::prelude::*;

verus! {

/// Whether the schedules were captured yet, and what was captured.
#[derive(Debug)]
pub enum TrackedSchedules {
    Uninitialized,
    Captured(Vec<ScheduleInfo>),
}

/// The inspector's memory: the entities seen alive at the last observation, in
/// the order in which they were first seen, each with the components known on
/// it; and the schedules, once captured.
#[derive(Debug)]
pub struct TrackedData {
    pub(crate) order: Vec<u64>,
    pub(crate) components: HashMap<u64, HashSet<usize>>,
    pub(crate) schedules: TrackedSchedules,
}

/// What a [`TrackedData`] stands for.
pub struct TrackedView {
    /// The known entities, first seen first.
    pub order: Seq<u64>,
    /// For each known entity, the components known on it.
    pub known: Map<u64, Set<usize>>,
    /// The captured schedules, if any.
    pub schedules: Option<Seq<ScheduleInfoView>>,
}

impl TrackedView {
    /// No entity occurs twice, and the known components are kept for the
    /// known entities and for no others.
    pub open spec fn wf(self) -> bool {
        &&& self.order.no_duplicates()
        &&& forall|id: u64| self.order.contains(id) <==> self.known.contains_key(id)
    }

    /// The memory of an inspector that has seen nothing.
    pub open spec fn empty() -> TrackedView {
        TrackedView { order: Seq::empty(), known: Map::empty(), schedules: None }
    }
}

/// The component sets that a table of hash sets stands for.
pub open spec fn known_sets(components: Map<u64, HashSet<usize>>) -> Map<u64, Set<usize>> {
    Map::new(|id: u64| components.contains_key(id), |id: u64| components[id]@)
}

impl View for TrackedSchedules {
    type V = Option<Seq<ScheduleInfoView>>;

    open spec fn view(&self) -> Option<Seq<ScheduleInfoView>> {
        match *self {
            TrackedSchedules::Uninitialized => None,
            TrackedSchedules::Captured(schedules) => Some(schedule_views(schedules@)),
        }
    }
}

impl View for TrackedData {
    type V = TrackedView;

    open(crate) spec fn view(&self) -> TrackedView {
        TrackedView {
            order: self.order@,
            known: known_sets(self.components@),
            schedules: self.schedules@,
        }
    }
}

impl TrackedData {
    /// The invariant of the tracking state.
    pub open spec fn wf(&self) -> bool {
        self@.wf()
    }

    /// An inspector that has seen nothing yet.
    pub fn new() -> (state: Self)
        ensures
            state.wf(),
            state@ == TrackedView::empty(),
    {
        let state = TrackedData {
            order: Vec::new(),
            components: HashMap::new(),
            schedules: TrackedSchedules::Uninitialized,
        };
        proof {
            assert(state@.known =~= Map::empty());
        }
        state
    }

    /// Whether the entity with identifier `entity` is known.
    pub fn is_tracked(&self, entity: u64) -> (known: bool)
        ensures
            known == self@.known.contains_key(entity),
    {
        self.components.contains_key(&entity)
    }

    /// Whether `component` is known on the entity with identifier `entity`.
    pub fn is_component_tracked(&self, entity: u64, component: usize) -> (known: bool)
        ensures
            known == (self@.known.contains_key(entity) && self@.known[entity].contains(component)),
    {
        match self.components.get(&entity) {
            Some(components) => components.contains(&component),
            None => false,
        }
    }

    /// The known entities, first seen first.
    pub fn entities(&self) -> (order: &Vec<u64>)
        ensures
            order@ == self@.order,
    {
        &self.order
    }

    /// The captured schedules, if the capture was made.
    pub fn captured_schedules(&self) -> (captured: Option<&Vec<ScheduleInfo>>)
        ensures
            match captured {
                Some(schedules) => self@.schedules == Some(schedule_views(schedules@)),
                None => self@.schedules is None,
            },
    {
        match &self.schedules {
            TrackedSchedules::Uninitialized => None,
            TrackedSchedules::Captured(schedules) => Some(schedules),
        }
    }
}

impl Default for TrackedData {
    fn default() -> (state: Self)
        ensures
            state.wf(),
            state@ == TrackedView::empty(),
    {
        TrackedData::new()
    }
}

} // verus!
