//! The per-tick diff of the live store against what was seen before.

use crate::event::change;
use crate::event::event_views;
use crate::event::lemma_event_views_push;
use crate::event::removal;
use crate::event::InspectorEvent;
use crate::event::InspectorEventView;
use crate::state::known_sets;
use crate::state::TrackedData;
use crate::state::TrackedView;
use crate::tick::changed_since;
use crate::tick::tick_is_newer_than;
use crate::value::copy_payload;
use serde_json::Value;
use std::collections::HashSet;
use vstd::prelude::*;

verus! {

/// What happened to an entity.
#[derive(Debug, PartialEq)]
pub enum EntityMutation {
    /// The entity is gone.
    Remove,
    /// Components were added or changed: each by its name, with its
    /// serialized value where there is one.
    Change(Vec<(String, Option<Value>)>),
}

/// What an [`EntityMutation`] stands for.
pub enum EntityMutationView {
    Remove,
    Change(Seq<(Seq<char>, Option<Value>)>),
}

/// The views of a list of component changes.
pub open spec fn change_views(changes: Seq<(String, Option<Value>)>) -> Seq<
    (Seq<char>, Option<Value>),
> {
    changes.map_values(|pair: (String, Option<Value>)| (pair.0@, pair.1))
}

impl View for EntityMutation {
    type V = EntityMutationView;

    open spec fn view(&self) -> EntityMutationView {
        match *self {
            EntityMutation::Remove => EntityMutationView::Remove,
            EntityMutation::Change(changes) => EntityMutationView::Change(change_views(changes@)),
        }
    }
}

/// The registry of zero-sized types: the identifiers of the component types
/// that are known to carry no data.
#[derive(Debug)]
pub struct ZeroSizedTypes {
    ids: HashSet<usize>,
}

impl View for ZeroSizedTypes {
    type V = Set<usize>;

    closed spec fn view(&self) -> Set<usize> {
        self.ids@
    }
}

impl ZeroSizedTypes {
    /// The registry without any type.
    pub fn new() -> (zsts: Self)
        ensures
            zsts@ == Set::<usize>::empty(),
    {
        ZeroSizedTypes { ids: HashSet::new() }
    }

    /// Registers the component type `id` as zero-sized.
    pub fn insert(&mut self, id: usize)
        ensures
            final(self)@ == old(self)@.insert(id),
    {
        self.ids.insert(id);
    }

    /// Whether the component type `id` is registered as zero-sized.
    pub fn contains(&self, id: usize) -> (registered: bool)
        ensures
            registered == self@.contains(id),
    {
        self.ids.contains(&id)
    }
}

impl Default for ZeroSizedTypes {
    fn default() -> (zsts: Self)
        ensures
            zsts@ == Set::<usize>::empty(),
    {
        ZeroSizedTypes::new()
    }
}

/// A component as found on a live entity.
#[derive(Debug)]
pub struct LiveComponent {
    /// The identifier of the component's type.
    pub id: usize,
    /// The display name of the component's type.
    pub name: String,
    /// The tick at which this component was last changed.
    pub changed: u32,
    /// What the serializer makes of the component's value; `None` where it
    /// cannot serialize it. A tick reads this only where [`value_is_read`]
    /// holds, so elsewhere it may be left `None` without asking the
    /// serializer.
    pub serialized: Option<Value>,
}

/// A live entity with the components it has now.
#[derive(Debug)]
pub struct LiveEntity {
    pub id: u64,
    pub components: Vec<LiveComponent>,
}

/// The live store at one observation.
#[derive(Debug)]
pub struct LiveStore {
    /// The tick of the previous observation.
    pub last_run: u32,
    /// The tick of this observation.
    pub this_run: u32,
    /// The entities alive now, in the store's order.
    pub entities: Vec<LiveEntity>,
}

/// Whether an entity with identifier `id` is among `entities`.
pub open spec fn is_live(entities: Seq<LiveEntity>, id: u64) -> bool {
    exists|i: int| 0 <= i < entities.len() && (#[trigger] entities[i]).id == id
}

/// The identifiers of `entities`.
pub open spec fn live_ids(entities: Seq<LiveEntity>) -> Set<u64> {
    Set::new(|id: u64| is_live(entities, id))
}

/// The entities of `order` that are no longer live, order kept.
pub open spec fn departed(order: Seq<u64>, live: Set<u64>) -> Seq<u64>
    decreases order.len(),
{
    if order.len() == 0 {
        Seq::empty()
    } else {
        let before = departed(order.drop_last(), live);
        if live.contains(order.last()) {
            before
        } else {
            before.push(order.last())
        }
    }
}

/// The entities of `order` that are still live, order kept.
pub open spec fn remaining(order: Seq<u64>, live: Set<u64>) -> Seq<u64>
    decreases order.len(),
{
    if order.len() == 0 {
        Seq::empty()
    } else {
        let before = remaining(order.drop_last(), live);
        if live.contains(order.last()) {
            before.push(order.last())
        } else {
            before
        }
    }
}

/// One removal event for each of `ids`, in order.
pub open spec fn removals(ids: Seq<u64>) -> Seq<InspectorEventView> {
    ids.map_values(|id: u64| removal(id))
}

/// The tracking state once the entities that are no longer live are dropped.
pub open spec fn after_removal(state: TrackedView, live: Set<u64>) -> TrackedView {
    TrackedView {
        order: remaining(state.order, live),
        known: state.known.restrict(live),
        schedules: state.schedules,
    }
}

/// The value reported for a component: none for a zero-sized type, else what
/// the serializer made of it.
pub open spec fn payload(component: LiveComponent, zsts: Set<usize>) -> Option<Value> {
    if zsts.contains(component.id) {
        None
    } else {
        component.serialized
    }
}

/// The entry that reports `component`.
pub open spec fn report(component: LiveComponent, zsts: Set<usize>) -> (
    Seq<char>,
    Option<Value>,
) {
    (component.name@, payload(component, zsts))
}

/// What is reported of an entity seen for the first time: every component it
/// has, in order.
pub open spec fn first_sight_changes(components: Seq<LiveComponent>, zsts: Set<usize>) -> Seq<
    (Seq<char>, Option<Value>),
> {
    components.map_values(|component: LiveComponent| report(component, zsts))
}

/// The identifiers of `components`.
pub open spec fn component_ids(components: Seq<LiveComponent>) -> Set<usize> {
    Set::new(
        |id: usize| exists|k: int| 0 <= k < components.len() && (#[trigger] components[k]).id == id,
    )
}

/// Whether a tick reads the serialized value of a component: never that of a
/// zero-sized one; else that of every component of an entity not known so far,
/// and on a known entity that of the components that have changed since the
/// previous observation. Where this does not hold the serializer need not be
/// asked.
pub open spec fn value_is_read(
    entity_is_known: bool,
    zero_sized: bool,
    changed: u32,
    last_run: u32,
    this_run: u32,
) -> bool {
    !zero_sized && (!entity_is_known || changed_since(changed, last_run, this_run))
}

/// Whether `component`, found on an entity on which the components `known`
/// were seen before, is reported: it must have changed since the previous
/// observation, and either be new on the entity or carry data that the
/// serializer could serialize.
pub open spec fn is_reported(
    known: Set<usize>,
    component: LiveComponent,
    last_run: u32,
    this_run: u32,
    zsts: Set<usize>,
) -> bool {
    &&& changed_since(component.changed, last_run, this_run)
    &&& (!known.contains(component.id) || (!zsts.contains(component.id)
        && component.serialized is Some))
}

/// The components known on an entity once `component` was looked at: a
/// component that has changed is known from then on.
pub open spec fn known_with(
    known: Set<usize>,
    component: LiveComponent,
    last_run: u32,
    this_run: u32,
) -> Set<usize> {
    if changed_since(component.changed, last_run, this_run) {
        known.insert(component.id)
    } else {
        known
    }
}

/// What looking at `components`, in order, on an entity that is already known leads
/// to: the components known afterwards, and the entries to report.
pub open spec fn tracked_changes(
    known: Set<usize>,
    components: Seq<LiveComponent>,
    last_run: u32,
    this_run: u32,
    zsts: Set<usize>,
) -> (Set<usize>, Seq<(Seq<char>, Option<Value>)>)
    decreases components.len(),
{
    if components.len() == 0 {
        (known, Seq::empty())
    } else {
        let (before, changes) = tracked_changes(
            known,
            components.drop_last(),
            last_run,
            this_run,
            zsts,
        );
        let component = components.last();
        (
            known_with(before, component, last_run, this_run),
            if is_reported(before, component, last_run, this_run, zsts) {
                changes.push(report(component, zsts))
            } else {
                changes
            },
        )
    }
}

/// The change event of `entity`, unless there is nothing to report.
pub open spec fn change_event(entity: u64, changes: Seq<(Seq<char>, Option<Value>)>) -> Seq<
    InspectorEventView,
> {
    if changes.len() > 0 {
        seq![change(entity, changes)]
    } else {
        Seq::empty()
    }
}

/// What observing one live entity leads to: the tracking state afterwards and
/// the event to emit, if any. An entity not known so far is registered with
/// all its components, and all of them are reported.
pub open spec fn observe_entity(
    state: TrackedView,
    entity: LiveEntity,
    last_run: u32,
    this_run: u32,
    zsts: Set<usize>,
) -> (TrackedView, Seq<InspectorEventView>) {
    if state.known.contains_key(entity.id) {
        let (known, changes) = tracked_changes(
            state.known[entity.id],
            entity.components@,
            last_run,
            this_run,
            zsts,
        );
        (
            TrackedView {
                order: state.order,
                known: state.known.insert(entity.id, known),
                schedules: state.schedules,
            },
            change_event(entity.id, changes),
        )
    } else {
        (
            TrackedView {
                order: state.order.push(entity.id),
                known: state.known.insert(entity.id, component_ids(entity.components@)),
                schedules: state.schedules,
            },
            change_event(entity.id, first_sight_changes(entity.components@, zsts)),
        )
    }
}

/// What observing `entities`, in order, leads to.
pub open spec fn observe_entities(
    state: TrackedView,
    entities: Seq<LiveEntity>,
    last_run: u32,
    this_run: u32,
    zsts: Set<usize>,
) -> (TrackedView, Seq<InspectorEventView>)
    decreases entities.len(),
{
    if entities.len() == 0 {
        (state, Seq::empty())
    } else {
        let (before, events) = observe_entities(
            state,
            entities.drop_last(),
            last_run,
            this_run,
            zsts,
        );
        let (after, event) = observe_entity(before, entities.last(), last_run, this_run, zsts);
        (after, events + event)
    }
}

/// One tick of entity tracking: first every known entity that is no longer
/// live is reported as removed and forgotten, then the live entities are
/// observed in the store's order.
pub open spec fn tracked_tick(state: TrackedView, store: LiveStore, zsts: Set<usize>) -> (
    TrackedView,
    Seq<InspectorEventView>,
) {
    let live = live_ids(store.entities@);
    let (after, changes) = observe_entities(
        after_removal(state, live),
        store.entities@,
        store.last_run,
        store.this_run,
        zsts,
    );
    (after, removals(departed(state.order, live)) + changes)
}

/// Appending one entry appends its view.
pub proof fn lemma_change_views_push(
    changes: Seq<(String, Option<Value>)>,
    pair: (String, Option<Value>),
)
    ensures
        change_views(changes.push(pair)) == change_views(changes).push((pair.0@, pair.1)),
{
    assert(change_views(changes.push(pair)) =~= change_views(changes).push((pair.0@, pair.1)));
}

/// The still live entities of `order` are those of `order` that are live, and
/// none occurs twice if none did in `order`.
pub proof fn lemma_remaining(order: Seq<u64>, live: Set<u64>)
    ensures
        forall|id: u64|
            remaining(order, live).contains(id) <==> order.contains(id) && live.contains(id),
        order.no_duplicates() ==> remaining(order, live).no_duplicates(),
    decreases order.len(),
{
    if order.len() > 0 {
        let front = order.drop_last();
        let last = order.last();
        lemma_remaining(front, live);
        let kept = remaining(front, live);
        assert forall|id: u64|
            remaining(order, live).contains(id) <==> order.contains(id) && live.contains(
                id,
            ) by {
            if order.contains(id) {
                let i = choose|i: int| 0 <= i < order.len() && order[i] == id;
                if i < front.len() {
                    assert(front[i] == id);
                }
            }
            if front.contains(id) {
                let i = choose|i: int| 0 <= i < front.len() && front[i] == id;
                assert(order[i] == id);
            }
            if live.contains(last) {
                assert(kept.push(last)[kept.len() as int] == last);
                if kept.contains(id) {
                    let i = choose|i: int| 0 <= i < kept.len() && kept[i] == id;
                    assert(kept.push(last)[i] == id);
                }
            }
            assert(order[order.len() - 1] == last);
        }
        if order.no_duplicates() {
            assert(front.no_duplicates());
            if live.contains(last) {
                if kept.contains(last) {
                    let i = choose|i: int| 0 <= i < front.len() && front[i] == last;
                    assert(order[i] == order[order.len() - 1]);
                }
                assert(kept.push(last).no_duplicates());
            }
        }
    }
}

/// The entities dropped from `order` are those of `order` that are not live.
pub proof fn lemma_departed(order: Seq<u64>, live: Set<u64>)
    ensures
        forall|id: u64|
            departed(order, live).contains(id) <==> order.contains(id) && !live.contains(id),
    decreases order.len(),
{
    if order.len() > 0 {
        let front = order.drop_last();
        let last = order.last();
        lemma_departed(front, live);
        let gone = departed(front, live);
        assert forall|id: u64|
            departed(order, live).contains(id) <==> order.contains(id) && !live.contains(
                id,
            ) by {
            if order.contains(id) {
                let i = choose|i: int| 0 <= i < order.len() && order[i] == id;
                if i < front.len() {
                    assert(front[i] == id);
                }
            }
            if front.contains(id) {
                let i = choose|i: int| 0 <= i < front.len() && front[i] == id;
                assert(order[i] == id);
            }
            if !live.contains(last) {
                assert(gone.push(last)[gone.len() as int] == last);
                if gone.contains(id) {
                    let i = choose|i: int| 0 <= i < gone.len() && gone[i] == id;
                    assert(gone.push(last)[i] == id);
                }
            }
            assert(order[order.len() - 1] == last);
        }
    }
}

/// Dropping the entities that are no longer live keeps the tracking state
/// well-formed.
pub proof fn lemma_after_removal_wf(state: TrackedView, live: Set<u64>)
    requires
        state.wf(),
    ensures
        after_removal(state, live).wf(),
{
    lemma_remaining(state.order, live);
    let after = after_removal(state, live);
    assert forall|id: u64| after.order.contains(id) <==> after.known.contains_key(id) by {
        assert(after.known.contains_key(id) <==> state.known.contains_key(id) && live.contains(id));
        assert(state.order.contains(id) <==> state.known.contains_key(id));
    }
}

/// Observing a live entity keeps the tracking state well-formed.
pub proof fn lemma_observe_entity_wf(
    state: TrackedView,
    entity: LiveEntity,
    last_run: u32,
    this_run: u32,
    zsts: Set<usize>,
)
    requires
        state.wf(),
    ensures
        observe_entity(state, entity, last_run, this_run, zsts).0.wf(),
{
    let after = observe_entity(state, entity, last_run, this_run, zsts).0;
    if !state.known.contains_key(entity.id) {
        let order = state.order;
        assert(after.order == order.push(entity.id));
        assert(after.order[order.len() as int] == entity.id);
        assert forall|id: u64| after.order.contains(id) <==> after.known.contains_key(id) by {
            if order.contains(id) {
                let i = choose|i: int| 0 <= i < order.len() && order[i] == id;
                assert(after.order[i] == id);
            }
            if after.order.contains(id) && id != entity.id {
                let i = choose|i: int| 0 <= i < after.order.len() && after.order[i] == id;
                assert(order[i] == id);
            }
        }
        let longer = after.order;
        assert forall|i: int, j: int|
            0 <= i < longer.len() && 0 <= j < longer.len() && i != j implies longer[i]
            != longer[j] by {
            if i < order.len() {
                assert(order.contains(order[i]));
            }
            if j < order.len() {
                assert(order.contains(order[j]));
            }
        }
    }
}

/// Collects the identifiers of the live entities.
pub fn live_entity_ids(entities: &Vec<LiveEntity>) -> (live: HashSet<u64>)
    ensures
        live@ == live_ids(entities@),
{
    let mut live: HashSet<u64> = HashSet::new();
    let mut i: usize = 0;
    while i < entities.len()
        invariant
            i <= entities.len(),
            live@ == live_ids(entities@.take(i as int)),
        decreases entities.len() - i,
    {
        let ghost before = live@;
        live.insert(entities[i].id);
        proof {
            let shorter = entities@.take(i as int);
            let longer = entities@.take(i + 1);
            assert forall|id: u64| live@.contains(id) == live_ids(longer).contains(id) by {
                if is_live(longer, id) {
                    let k = choose|k: int| 0 <= k < longer.len() && (#[trigger] longer[k]).id == id;
                    if k < i {
                        assert(shorter[k].id == id);
                    }
                }
                if is_live(shorter, id) {
                    let k = choose|k: int|
                        0 <= k < shorter.len() && (#[trigger] shorter[k]).id == id;
                    assert(longer[k].id == id);
                }
                assert(longer[i as int].id == entities@[i as int].id);
            }
            assert(live@ =~= live_ids(longer));
        }
        i += 1;
    }
    proof {
        assert(entities@.take(entities.len() as int) == entities@);
    }
    live
}

/// Looks at the components of an entity that is already known, in order:
/// registers in `known` those that have changed and returns what to report.
pub fn track_changes(
    known: &mut HashSet<usize>,
    components: &Vec<LiveComponent>,
    last_run: u32,
    this_run: u32,
    zsts: &ZeroSizedTypes,
) -> (changes: Vec<(String, Option<Value>)>)
    ensures
        (final(known)@, change_views(changes@)) == tracked_changes(
            old(known)@,
            components@,
            last_run,
            this_run,
            zsts@,
        ),
{
    let mut changes: Vec<(String, Option<Value>)> = Vec::new();
    let mut i: usize = 0;
    proof {
        assert(change_views(changes@) =~= Seq::empty());
    }
    while i < components.len()
        invariant
            i <= components.len(),
            (known@, change_views(changes@)) == tracked_changes(
                old(known)@,
                components@.take(i as int),
                last_run,
                this_run,
                zsts@,
            ),
        decreases components.len() - i,
    {
        let component = &components[i];
        proof {
            assert(components@.take(i + 1).drop_last() == components@.take(i as int));
        }
        if tick_is_newer_than(component.changed, last_run, this_run) {
            let is_known = known.contains(&component.id);
            let ghost before = changes@;
            if zsts.contains(component.id) {
                if !is_known {
                    known.insert(component.id);
                    let pair = (component.name.clone(), None);
                    proof {
                        lemma_change_views_push(before, pair);
                    }
                    changes.push(pair);
                }
            } else {
                if !is_known {
                    known.insert(component.id);
                }
                if !is_known || component.serialized.is_some() {
                    let pair = (component.name.clone(), copy_payload(&component.serialized));
                    proof {
                        lemma_change_views_push(before, pair);
                    }
                    changes.push(pair);
                }
            }
            proof {
                assert(known@ =~= known_with(
                    tracked_changes(
                        old(known)@,
                        components@.take(i as int),
                        last_run,
                        this_run,
                        zsts@,
                    ).0,
                    *component,
                    last_run,
                    this_run,
                ));
            }
        }
        i += 1;
    }
    proof {
        assert(components@.take(components.len() as int) == components@);
    }
    changes
}

/// Looks at the components of an entity seen for the first time: collects
/// their identifiers and reports every one of them.
pub fn first_sight(components: &Vec<LiveComponent>, zsts: &ZeroSizedTypes) -> (seen: (
    HashSet<usize>,
    Vec<(String, Option<Value>)>,
))
    ensures
        seen.0@ == component_ids(components@),
        change_views(seen.1@) == first_sight_changes(components@, zsts@),
{
    let mut ids: HashSet<usize> = HashSet::new();
    let mut changes: Vec<(String, Option<Value>)> = Vec::new();
    let mut i: usize = 0;
    proof {
        assert(ids@ =~= component_ids(components@.take(0)));
        assert(change_views(changes@) =~= first_sight_changes(components@.take(0), zsts@));
    }
    while i < components.len()
        invariant
            i <= components.len(),
            ids@ == component_ids(components@.take(i as int)),
            change_views(changes@) == first_sight_changes(components@.take(i as int), zsts@),
        decreases components.len() - i,
    {
        let component = &components[i];
        let ghost ids_before = ids@;
        let ghost before = changes@;
        ids.insert(component.id);
        let value = if zsts.contains(component.id) {
            None
        } else {
            copy_payload(&component.serialized)
        };
        let pair = (component.name.clone(), value);
        proof {
            lemma_change_views_push(before, pair);
        }
        changes.push(pair);
        proof {
            let shorter = components@.take(i as int);
            let longer = components@.take(i + 1);
            assert(longer == shorter.push(components@[i as int]));
            assert(first_sight_changes(longer, zsts@) =~= first_sight_changes(shorter, zsts@).push(
                report(components@[i as int], zsts@),
            ));
            assert forall|id: usize| ids@.contains(id) == component_ids(longer).contains(id) by {
                if component_ids(longer).contains(id) {
                    let k = choose|k: int| 0 <= k < longer.len() && (#[trigger] longer[k]).id == id;
                    if k < i {
                        assert(shorter[k].id == id);
                    }
                }
                if ids_before.contains(id) {
                    let k = choose|k: int|
                        0 <= k < shorter.len() && (#[trigger] shorter[k]).id == id;
                    assert(longer[k].id == id);
                }
                assert(longer[i as int].id == component.id);
            }
            assert(ids@ =~= component_ids(longer));
        }
        i += 1;
    }
    proof {
        assert(components@.take(components.len() as int) == components@);
    }
    (ids, changes)
}

impl TrackedData {
    /// The removal pass: reports every known entity that is no longer live as
    /// removed, in the order in which the entities were first seen, and
    /// forgets it.
    pub fn forget_departed(&mut self, events: &mut Vec<InspectorEvent>, live: &HashSet<u64>)
        requires
            old(self).wf(),
        ensures
            final(self).wf(),
            final(self)@ == after_removal(old(self)@, live@),
            event_views(final(events)@) == event_views(old(events)@) + removals(
                departed(old(self)@.order, live@),
            ),
    {
        let ghost start = self@;
        let ghost start_components = self.components@;
        let ghost start_events = event_views(events@);
        let mut kept: Vec<u64> = Vec::new();
        let mut i: usize = 0;
        proof {
            assert(event_views(events@) =~= start_events + removals(
                departed(start.order.take(0), live@),
            ));
        }
        while i < self.order.len()
            invariant
                i <= self.order.len(),
                self.order@ == start.order,
                self.schedules@ == start.schedules,
                kept@ == remaining(start.order.take(i as int), live@),
                event_views(events@) == start_events + removals(
                    departed(start.order.take(i as int), live@),
                ),
                forall|id: u64|
                    self.components@.contains_key(id) <==> start_components.contains_key(id) && !(
                    start.order.take(i as int).contains(id) && !live@.contains(id)),
                forall|id: u64|
                    self.components@.contains_key(id) ==> self.components@[id]
                        == start_components[id],
            decreases self.order.len() - i,
        {
            let id = self.order[i];
            let ghost shorter = start.order.take(i as int);
            let ghost longer = start.order.take(i + 1);
            proof {
                assert(longer.drop_last() == shorter);
                assert(longer.last() == id);
                assert forall|other: u64|
                    longer.contains(other) <==> shorter.contains(other) || other == id by {
                    if longer.contains(other) {
                        let k = choose|k: int| 0 <= k < longer.len() && longer[k] == other;
                        if k < i {
                            assert(shorter[k] == other);
                        }
                    }
                    if shorter.contains(other) {
                        let k = choose|k: int| 0 <= k < shorter.len() && shorter[k] == other;
                        assert(longer[k] == other);
                    }
                    assert(longer[i as int] == id);
                }
            }
            if live.contains(&id) {
                kept.push(id);
            } else {
                self.components.remove(&id);
                let ghost before = events@;
                let event = InspectorEvent::Entity { entity: id, mutation: EntityMutation::Remove };
                events.push(event);
                proof {
                    lemma_event_views_push(before, event);
                    let gone = departed(shorter, live@);
                    assert(removals(gone.push(id)) =~= removals(gone).push(removal(id)));
                    assert(event_views(events@) =~= start_events + removals(gone.push(id)));
                }
            }
            i += 1;
        }
        self.order = kept;
        proof {
            assert(start.order.take(start.order.len() as int) == start.order);
            assert forall|id: u64|
                known_sets(self.components@).contains_key(id) == start.known.restrict(
                    live@,
                ).contains_key(id) by {
                assert(start.order.contains(id) <==> start.known.contains_key(id));
            }
            assert(known_sets(self.components@) =~= start.known.restrict(live@));
            lemma_after_removal_wf(start, live@);
        }
    }

    /// Observes one live entity: registers it with all its components if it is
    /// new, else registers the components that have changed; and emits the
    /// change event, unless there is nothing to report.
    pub fn observe(
        &mut self,
        events: &mut Vec<InspectorEvent>,
        entity: &LiveEntity,
        last_run: u32,
        this_run: u32,
        zsts: &ZeroSizedTypes,
    )
        requires
            old(self).wf(),
        ensures
            final(self).wf(),
            final(self)@ == observe_entity(old(self)@, *entity, last_run, this_run, zsts@).0,
            event_views(final(events)@) == event_views(old(events)@) + observe_entity(
                old(self)@,
                *entity,
                last_run,
                this_run,
                zsts@,
            ).1,
    {
        let ghost start = self@;
        let ghost start_components = self.components@;
        let ghost start_events = events@;
        let changes = match self.components.remove(&entity.id) {
            Some(known) => {
                let mut known = known;
                let changes =
                    track_changes(&mut known, &entity.components, last_run, this_run, zsts);
                self.components.insert(entity.id, known);
                proof {
                    assert(known_sets(self.components@) =~= start.known.insert(entity.id, known@));
                }
                changes
            },
            None => {
                let (ids, changes) = first_sight(&entity.components, zsts);
                self.order.push(entity.id);
                self.components.insert(entity.id, ids);
                proof {
                    assert(known_sets(self.components@) =~= start.known.insert(entity.id, ids@));
                }
                changes
            },
        };
        if changes.len() > 0 {
            let event = InspectorEvent::Entity {
                entity: entity.id,
                mutation: EntityMutation::Change(changes),
            };
            events.push(event);
            proof {
                lemma_event_views_push(start_events, event);
                assert(event_views(events@) =~= event_views(start_events) + seq![event@]);
            }
        } else {
            proof {
                assert(event_views(events@) =~= event_views(start_events)
                    + Seq::<InspectorEventView>::empty());
            }
        }
        proof {
            lemma_observe_entity_wf(start, *entity, last_run, this_run, zsts@);
        }
    }

    /// Tells whether the coming tick will read the serialized value of a
    /// component of type `component` on the entity `entity`.
    pub fn reads_value(
        &self,
        zsts: &ZeroSizedTypes,
        entity: u64,
        component: usize,
        changed: u32,
        last_run: u32,
        this_run: u32,
    ) -> (read: bool)
        ensures
            read == value_is_read(
                self@.known.contains_key(entity),
                zsts@.contains(component),
                changed,
                last_run,
                this_run,
            ),
    {
        !zsts.contains(component) && (!self.components.contains_key(&entity)
            || tick_is_newer_than(changed, last_run, this_run))
    }

    /// Brings the tracking state up to date with the live store and appends to
    /// `events` what has happened since the previous observation: first the
    /// removals, then one change event for each live entity with something to
    /// report, in the store's order.
    pub fn track_entities(
        &mut self,
        events: &mut Vec<InspectorEvent>,
        store: &LiveStore,
        zsts: &ZeroSizedTypes,
    )
        requires
            old(self).wf(),
        ensures
            final(self).wf(),
            final(self)@ == tracked_tick(old(self)@, *store, zsts@).0,
            event_views(final(events)@) == event_views(old(events)@) + tracked_tick(
                old(self)@,
                *store,
                zsts@,
            ).1,
    {
        let ghost start = self@;
        let ghost start_events = event_views(events@);
        let live = live_entity_ids(&store.entities);
        self.forget_departed(events, &live);
        let ghost cleared = self@;
        let ghost gone = removals(departed(start.order, live@));
        let mut i: usize = 0;
        proof {
            let none = Seq::<InspectorEventView>::empty();
            assert(event_views(events@) =~= start_events + gone + none);
        }
        while i < store.entities.len()
            invariant
                i <= store.entities.len(),
                self.wf(),
                self@ == observe_entities(
                    cleared,
                    store.entities@.take(i as int),
                    store.last_run,
                    store.this_run,
                    zsts@,
                ).0,
                event_views(events@) == start_events + gone + observe_entities(
                    cleared,
                    store.entities@.take(i as int),
                    store.last_run,
                    store.this_run,
                    zsts@,
                ).1,
            decreases store.entities.len() - i,
        {
            proof {
                assert(store.entities@.take(i + 1).drop_last() == store.entities@.take(i as int));
            }
            let ghost before = observe_entities(
                cleared,
                store.entities@.take(i as int),
                store.last_run,
                store.this_run,
                zsts@,
            );
            let ghost step = observe_entity(
                before.0,
                store.entities@[i as int],
                store.last_run,
                store.this_run,
                zsts@,
            );
            self.observe(events, &store.entities[i], store.last_run, store.this_run, zsts);
            proof {
                assert(event_views(events@) =~= start_events + gone + (before.1 + step.1));
            }
            i += 1;
        }
        proof {
            assert(store.entities@.take(store.entities.len() as int) == store.entities@);
            let seen = observe_entities(
                cleared,
                store.entities@,
                store.last_run,
                store.this_run,
                zsts@,
            );
            assert(start_events + gone + seen.1 =~= start_events + (gone + seen.1));
        }
    }
}

} // verus!
