//! What holds of entity tracking on every input.

use crate::entity::after_removal;
use crate::entity::change_event;
use crate::entity::component_ids;
use crate::entity::departed;
use crate::entity::first_sight_changes;
use crate::entity::is_live;
use crate::entity::known_with;
use crate::entity::lemma_after_removal_wf;
use crate::entity::lemma_departed;
use crate::entity::lemma_observe_entity_wf;
use crate::entity::live_ids;
use crate::entity::observe_entities;
use crate::entity::observe_entity;
use crate::entity::remaining;
use crate::entity::removals;
use crate::entity::report;
use crate::entity::tracked_changes;
use crate::entity::tracked_tick;
use crate::entity::value_is_read;
use crate::entity::EntityMutationView;
use crate::entity::LiveComponent;
use crate::entity::LiveEntity;
use crate::entity::LiveStore;
use crate::event::change;
use crate::event::removal;
use crate::event::InspectorEventView;
use crate::state::TrackedView;
use crate::tick::changed_since;
use serde_json::Value;
use vstd::prelude::*;

verus! {

/// Whether `event` is a change event of a live entity that reports at least
/// one component.
pub open spec fn is_change_of_live(event: InspectorEventView, entities: Seq<LiveEntity>) -> bool {
    match event {
        InspectorEventView::Entity { entity, mutation: EntityMutationView::Change(changes) } => {
            is_live(entities, entity) && changes.len() > 0
        },
        _ => false,
    }
}

/// Whether no component of `entities` has changed since the previous
/// observation.
pub open spec fn nothing_changed(entities: Seq<LiveEntity>, last_run: u32, this_run: u32) -> bool {
    forall|i: int, k: int|
        0 <= i < entities.len() && 0 <= k < entities[i].components@.len() ==> !changed_since(
            (#[trigger] entities[i].components@[k]).changed,
            last_run,
            this_run,
        )
}

/// Whether the entity at `index` is the first of `entities` with its
/// identifier.
pub open spec fn is_first_occurrence(entities: Seq<LiveEntity>, index: int) -> bool {
    &&& 0 <= index < entities.len()
    &&& forall|j: int| 0 <= j < index ==> (#[trigger] entities[j]).id != entities[index].id
}

/// The tracking state in which the entity at `index` of the store is
/// observed: the removals are done, and so are the entities before it.
pub open spec fn state_before(
    state: TrackedView,
    store: LiveStore,
    index: int,
    zsts: Set<usize>,
) -> TrackedView {
    observe_entities(
        after_removal(state, live_ids(store.entities@)),
        store.entities@.take(index),
        store.last_run,
        store.this_run,
        zsts,
    ).0
}

/// What is emitted when the entity at `index` of the store is observed: one
/// change event, or nothing.
pub open spec fn events_at(
    state: TrackedView,
    store: LiveStore,
    index: int,
    zsts: Set<usize>,
) -> Seq<InspectorEventView> {
    observe_entity(
        state_before(state, store, index, zsts),
        store.entities@[index],
        store.last_run,
        store.this_run,
        zsts,
    ).1
}

proof fn lemma_is_live_push(entities: Seq<LiveEntity>, id: u64)
    requires
        entities.len() > 0,
    ensures
        is_live(entities, id) <==> is_live(entities.drop_last(), id) || entities.last().id == id,
{
    let front = entities.drop_last();
    if is_live(entities, id) {
        let i = choose|i: int| 0 <= i < entities.len() && (#[trigger] entities[i]).id == id;
        if i < front.len() {
            assert(front[i].id == id);
        }
    }
    if is_live(front, id) {
        let i = choose|i: int| 0 <= i < front.len() && (#[trigger] front[i]).id == id;
        assert(entities[i].id == id);
    }
    assert(entities[entities.len() - 1] == entities.last());
}

/// Looking at components never makes a known component unknown.
pub proof fn lemma_tracked_changes_grow(
    known: Set<usize>,
    components: Seq<LiveComponent>,
    last_run: u32,
    this_run: u32,
    zsts: Set<usize>,
)
    ensures
        known.subset_of(tracked_changes(known, components, last_run, this_run, zsts).0),
    decreases components.len(),
{
    if components.len() > 0 {
        lemma_tracked_changes_grow(known, components.drop_last(), last_run, this_run, zsts);
    }
}

/// Observing entities keeps the tracking state well-formed, leaves the
/// captured schedules alone, and makes known exactly the observed entities
/// besides those known before.
pub proof fn lemma_observe_entities_known(
    state: TrackedView,
    entities: Seq<LiveEntity>,
    last_run: u32,
    this_run: u32,
    zsts: Set<usize>,
)
    requires
        state.wf(),
    ensures
        observe_entities(state, entities, last_run, this_run, zsts).0.wf(),
        observe_entities(state, entities, last_run, this_run, zsts).0.schedules == state.schedules,
        observe_entities(state, entities, last_run, this_run, zsts).0.known.dom()
            == state.known.dom().union(live_ids(entities)),
    decreases entities.len(),
{
    if entities.len() > 0 {
        let front = entities.drop_last();
        lemma_observe_entities_known(state, front, last_run, this_run, zsts);
        let before = observe_entities(state, front, last_run, this_run, zsts).0;
        lemma_observe_entity_wf(before, entities.last(), last_run, this_run, zsts);
        let after = observe_entity(before, entities.last(), last_run, this_run, zsts).0;
        assert(observe_entities(state, entities, last_run, this_run, zsts).0 == after);
        assert(after.known.dom() =~= before.known.dom().insert(entities.last().id));
        assert forall|id: u64|
            after.known.dom().contains(id) == state.known.dom().union(live_ids(entities)).contains(
                id,
            ) by {
            lemma_is_live_push(entities, id);
            assert(live_ids(front).contains(id) == is_live(front, id));
            assert(live_ids(entities).contains(id) == is_live(entities, id));
        }
        assert(after.known.dom() =~= state.known.dom().union(live_ids(entities)));
    } else {
        assert forall|id: u64| !live_ids(entities).contains(id) by {
            assert(!is_live(entities, id));
        }
        assert(state.known.dom() =~= state.known.dom().union(live_ids(entities)));
    }
}

/// Observing entities leaves alone what is known of an entity that is not
/// among them.
pub proof fn lemma_observe_entities_elsewhere(
    state: TrackedView,
    entities: Seq<LiveEntity>,
    last_run: u32,
    this_run: u32,
    id: u64,
    zsts: Set<usize>,
)
    requires
        !is_live(entities, id),
    ensures
        observe_entities(state, entities, last_run, this_run, zsts).0.known.contains_key(id)
            == state.known.contains_key(id),
        observe_entities(state, entities, last_run, this_run, zsts).0.known[id] == state.known[id],
    decreases entities.len(),
{
    if entities.len() > 0 {
        lemma_is_live_push(entities, id);
        lemma_observe_entities_elsewhere(state, entities.drop_last(), last_run, this_run, id, zsts);
    }
}

/// While an entity stays known, observing entities never makes a component
/// known on it unknown.
pub proof fn lemma_observe_entities_grow(
    state: TrackedView,
    entities: Seq<LiveEntity>,
    last_run: u32,
    this_run: u32,
    id: u64,
    zsts: Set<usize>,
)
    requires
        state.known.contains_key(id),
    ensures
        observe_entities(state, entities, last_run, this_run, zsts).0.known.contains_key(id),
        state.known[id].subset_of(
            observe_entities(state, entities, last_run, this_run, zsts).0.known[id],
        ),
    decreases entities.len(),
{
    if entities.len() > 0 {
        lemma_observe_entities_grow(state, entities.drop_last(), last_run, this_run, id, zsts);
        let before = observe_entities(state, entities.drop_last(), last_run, this_run, zsts).0;
        let entity = entities.last();
        if entity.id == id {
            lemma_tracked_changes_grow(
                before.known[id],
                entity.components@,
                last_run,
                this_run,
                zsts,
            );
        }
    }
}

/// Every event of the observation pass is a change event of a live entity,
/// and reports at least one component.
pub proof fn lemma_observe_entities_events(
    state: TrackedView,
    entities: Seq<LiveEntity>,
    last_run: u32,
    this_run: u32,
    zsts: Set<usize>,
)
    ensures
        forall|j: int|
            0 <= j < observe_entities(state, entities, last_run, this_run, zsts).1.len()
                ==> is_change_of_live(
                #[trigger] observe_entities(state, entities, last_run, this_run, zsts).1[j],
                entities,
            ),
    decreases entities.len(),
{
    if entities.len() > 0 {
        let front = entities.drop_last();
        lemma_observe_entities_events(state, front, last_run, this_run, zsts);
        let (before, events) = observe_entities(state, front, last_run, this_run, zsts);
        let event = observe_entity(before, entities.last(), last_run, this_run, zsts).1;
        let all = observe_entities(state, entities, last_run, this_run, zsts).1;
        assert(all == events + event);
        assert forall|j: int| 0 <= j < all.len() implies is_change_of_live(
            #[trigger] all[j],
            entities,
        ) by {
            if j < events.len() {
                assert(all[j] == events[j]);
                assert(is_change_of_live(events[j], front));
                match events[j] {
                    InspectorEventView::Entity { entity, mutation } => {
                        lemma_is_live_push(entities, entity);
                    },
                    _ => {},
                }
            } else {
                assert(all[j] == event[j - events.len()]);
                lemma_is_live_push(entities, entities.last().id);
            }
        }
    }
}

/// After a tick the tracking state is well-formed, the known entities are
/// exactly the live ones, and the captured schedules are as they were.
pub proof fn lemma_tick_knows_the_live(state: TrackedView, store: LiveStore, zsts: Set<usize>)
    requires
        state.wf(),
    ensures
        tracked_tick(state, store, zsts).0.wf(),
        tracked_tick(state, store, zsts).0.schedules == state.schedules,
        tracked_tick(state, store, zsts).0.known.dom() == live_ids(store.entities@),
{
    let live = live_ids(store.entities@);
    lemma_after_removal_wf(state, live);
    lemma_observe_entities_known(
        after_removal(state, live),
        store.entities@,
        store.last_run,
        store.this_run,
        zsts,
    );
    assert(after_removal(state, live).known.dom().union(live) =~= live);
}

/// Whether `event` reports the removal of an entity that was known and is no
/// longer live.
pub open spec fn is_removal_of_departed(
    event: InspectorEventView,
    state: TrackedView,
    entities: Seq<LiveEntity>,
) -> bool {
    match event {
        InspectorEventView::Entity { entity, mutation: EntityMutationView::Remove } => {
            state.known.contains_key(entity) && !is_live(entities, entity)
        },
        _ => false,
    }
}

/// The shape of what a tick emits: first one removal for each entity that
/// was known and is no longer live, then change events only, each of a live
/// entity and none of them empty.
pub proof fn lemma_tick_events(state: TrackedView, store: LiveStore, zsts: Set<usize>)
    requires
        state.wf(),
    ensures
        departed(
            state.order,
            live_ids(store.entities@),
        ).len() <= tracked_tick(state, store, zsts).1.len(),
        forall|j: int|
            0 <= j < departed(state.order, live_ids(store.entities@)).len()
                ==> is_removal_of_departed(
                #[trigger] tracked_tick(state, store, zsts).1[j],
                state,
                store.entities@,
            ),
        forall|j: int|
            departed(state.order, live_ids(store.entities@)).len() <= j < tracked_tick(
                state,
                store,
                zsts,
            ).1.len() ==> is_change_of_live(
                #[trigger] tracked_tick(state, store, zsts).1[j],
                store.entities@,
            ),
{
    let live = live_ids(store.entities@);
    let gone = departed(state.order, live);
    let cleared = after_removal(state, live);
    let changes = observe_entities(
        cleared,
        store.entities@,
        store.last_run,
        store.this_run,
        zsts,
    ).1;
    let events = tracked_tick(state, store, zsts).1;
    assert(events == removals(gone) + changes);
    lemma_departed(state.order, live);
    lemma_observe_entities_events(cleared, store.entities@, store.last_run, store.this_run, zsts);
    assert forall|j: int| 0 <= j < gone.len() implies is_removal_of_departed(
        #[trigger] events[j],
        state,
        store.entities@,
    ) by {
        assert(events[j] == removal(gone[j]));
        assert(gone.contains(gone[j]));
        assert(state.order.contains(gone[j]));
        assert(!live.contains(gone[j]));
    }
    assert forall|j: int| gone.len() <= j < events.len() implies is_change_of_live(
        #[trigger] events[j],
        store.entities@,
    ) by {
        assert(events[j] == changes[j - gone.len()]);
    }
}

/// Removal exclusivity: an entity that a tick reports as removed is not live,
/// is no longer known after the tick, and no change event of the same tick
/// speaks of it.
pub proof fn lemma_removal_is_exclusive(
    state: TrackedView,
    store: LiveStore,
    id: u64,
    zsts: Set<usize>,
)
    requires
        state.wf(),
        tracked_tick(state, store, zsts).1.contains(removal(id)),
    ensures
        !is_live(store.entities@, id),
        !tracked_tick(state, store, zsts).0.known.contains_key(id),
        !tracked_tick(state, store, zsts).0.order.contains(id),
        forall|j: int|
            0 <= j < tracked_tick(state, store, zsts).1.len() ==> !((#[trigger] tracked_tick(
                state,
                store,
                zsts,
            ).1[j]) matches InspectorEventView::Entity {
                entity,
                mutation: EntityMutationView::Change(_),
            } && entity == id),
{
    let live = live_ids(store.entities@);
    let cleared = after_removal(state, live);
    let gone = removals(departed(state.order, live));
    let changes = observe_entities(
        cleared,
        store.entities@,
        store.last_run,
        store.this_run,
        zsts,
    ).1;
    let events = tracked_tick(state, store, zsts).1;
    assert(events == gone + changes);
    lemma_tick_knows_the_live(state, store, zsts);
    lemma_observe_entities_events(cleared, store.entities@, store.last_run, store.this_run, zsts);
    lemma_departed(state.order, live);
    let i = choose|i: int| 0 <= i < events.len() && events[i] == removal(id);
    if i < gone.len() {
        assert(events[i] == gone[i]);
        assert(gone[i] == removal(departed(state.order, live)[i]));
        assert(departed(state.order, live)[i] == id);
        assert(departed(state.order, live).contains(id));
        assert(!live.contains(id));
    } else {
        assert(events[i] == changes[i - gone.len()]);
        assert(is_change_of_live(changes[i - gone.len()], store.entities@));
    }
    assert(!is_live(store.entities@, id));
    assert(!live.contains(id));
    assert(!tracked_tick(state, store, zsts).0.known.dom().contains(id));
    assert forall|j: int| 0 <= j < events.len() implies !((
    #[trigger] events[j]) matches InspectorEventView::Entity {
        entity,
        mutation: EntityMutationView::Change(_),
    } && entity == id) by {
        if j < gone.len() {
            assert(events[j] == removal(departed(state.order, live)[j]));
        } else {
            assert(events[j] == changes[j - gone.len()]);
            assert(is_change_of_live(changes[j - gone.len()], store.entities@));
        }
    }
}

proof fn lemma_all_remain(order: Seq<u64>, live: Set<u64>)
    requires
        forall|id: u64| order.contains(id) ==> live.contains(id),
    ensures
        departed(order, live) == Seq::<u64>::empty(),
        remaining(order, live) == order,
    decreases order.len(),
{
    if order.len() > 0 {
        let front = order.drop_last();
        assert forall|id: u64| front.contains(id) implies live.contains(id) by {
            let i = choose|i: int| 0 <= i < front.len() && front[i] == id;
            assert(order[i] == id);
        }
        lemma_all_remain(front, live);
        assert(order[order.len() - 1] == order.last());
        assert(order.contains(order.last()));
        assert(front.push(order.last()) == order);
    }
}

/// Components that have not changed are not reported and leave what is known
/// as it is.
pub proof fn lemma_unchanged_components(
    known: Set<usize>,
    components: Seq<LiveComponent>,
    last_run: u32,
    this_run: u32,
    zsts: Set<usize>,
)
    requires
        forall|k: int|
            0 <= k < components.len() ==> !changed_since(
                (#[trigger] components[k]).changed,
                last_run,
                this_run,
            ),
    ensures
        tracked_changes(known, components, last_run, this_run, zsts) == (
            known,
            Seq::<(Seq<char>, Option<Value>)>::empty(),
        ),
    decreases components.len(),
{
    if components.len() > 0 {
        let front = components.drop_last();
        assert forall|k: int| 0 <= k < front.len() implies !changed_since(
            (#[trigger] front[k]).changed,
            last_run,
            this_run,
        ) by {
            assert(front[k] == components[k]);
        }
        lemma_unchanged_components(known, front, last_run, this_run, zsts);
        assert(components[components.len() - 1] == components.last());
    }
}

proof fn lemma_quiet_observation(
    state: TrackedView,
    entities: Seq<LiveEntity>,
    last_run: u32,
    this_run: u32,
    zsts: Set<usize>,
)
    requires
        forall|i: int|
            0 <= i < entities.len() ==> state.known.contains_key((#[trigger] entities[i]).id),
        nothing_changed(entities, last_run, this_run),
    ensures
        observe_entities(state, entities, last_run, this_run, zsts) == (
            state,
            Seq::<InspectorEventView>::empty(),
        ),
    decreases entities.len(),
{
    if entities.len() > 0 {
        let front = entities.drop_last();
        assert forall|i: int| 0 <= i < front.len() implies state.known.contains_key(
            (#[trigger] front[i]).id,
        ) by {
            assert(front[i] == entities[i]);
        }
        assert forall|i: int, k: int|
            0 <= i < front.len() && 0 <= k < front[i].components@.len() implies !changed_since(
            (#[trigger] front[i].components@[k]).changed,
            last_run,
            this_run,
        ) by {
            assert(front[i] == entities[i]);
            assert(!changed_since(entities[i].components@[k].changed, last_run, this_run));
        }
        lemma_quiet_observation(state, front, last_run, this_run, zsts);
        let entity = entities.last();
        assert(entity == entities[entities.len() - 1]);
        assert forall|k: int| 0 <= k < entity.components@.len() implies !changed_since(
            (#[trigger] entity.components@[k]).changed,
            last_run,
            this_run,
        ) by {
            assert(!changed_since(
                entities[entities.len() - 1].components@[k].changed,
                last_run,
                this_run,
            ));
        }
        lemma_unchanged_components(
            state.known[entity.id],
            entity.components@,
            last_run,
            this_run,
            zsts,
        );
        assert(state.known.insert(entity.id, state.known[entity.id]) =~= state.known);
        let after = observe_entity(state, entity, last_run, this_run, zsts);
        assert(after.0 == state);
        assert(Seq::<InspectorEventView>::empty() + after.1 =~= Seq::<InspectorEventView>::empty());
    }
}

/// Idempotence of ticks without change: when a tick on `first` is followed by
/// a tick on `second`, the same entities are live in both, and no component of
/// `second` has changed since the previous observation, then the second tick
/// emits nothing and leaves the tracking state as it is.
pub proof fn lemma_quiet_tick(
    state: TrackedView,
    first: LiveStore,
    second: LiveStore,
    zsts: Set<usize>,
)
    requires
        state.wf(),
        live_ids(second.entities@) == live_ids(first.entities@),
        nothing_changed(second.entities@, second.last_run, second.this_run),
    ensures
        tracked_tick(tracked_tick(state, first, zsts).0, second, zsts) == (
            tracked_tick(state, first, zsts).0,
            Seq::<InspectorEventView>::empty(),
        ),
{
    let seen = tracked_tick(state, first, zsts).0;
    let live = live_ids(second.entities@);
    lemma_tick_knows_the_live(state, first, zsts);
    assert(seen.known.dom() == live);
    assert forall|id: u64| seen.order.contains(id) implies live.contains(id) by {
        assert(seen.known.contains_key(id));
    }
    lemma_all_remain(seen.order, live);
    assert(seen.known.restrict(live) =~= seen.known);
    assert(after_removal(seen, live) == seen);
    assert forall|i: int| 0 <= i < second.entities@.len() implies seen.known.contains_key(
        (#[trigger] second.entities@[i]).id,
    ) by {
        assert(is_live(second.entities@, second.entities@[i].id));
        assert(live.contains(second.entities@[i].id));
    }
    lemma_quiet_observation(seen, second.entities@, second.last_run, second.this_run, zsts);
    assert(removals(Seq::<u64>::empty()) =~= Seq::<InspectorEventView>::empty());
    assert(Seq::<InspectorEventView>::empty() + Seq::<InspectorEventView>::empty()
        =~= Seq::<InspectorEventView>::empty());
}

/// What is emitted on observing any one entity of the store is part of what
/// the tick emits.
pub proof fn lemma_events_at_are_emitted(
    state: TrackedView,
    store: LiveStore,
    index: int,
    event: InspectorEventView,
    zsts: Set<usize>,
)
    requires
        0 <= index < store.entities@.len(),
        events_at(state, store, index, zsts).contains(event),
    ensures
        tracked_tick(state, store, zsts).1.contains(event),
{
    let live = live_ids(store.entities@);
    let cleared = after_removal(state, live);
    lemma_observed_events_are_kept(
        cleared,
        store.entities@,
        store.last_run,
        store.this_run,
        index,
        event,
        zsts,
    );
    let gone = removals(departed(state.order, live));
    let changes = observe_entities(
        cleared,
        store.entities@,
        store.last_run,
        store.this_run,
        zsts,
    ).1;
    let j = choose|j: int| 0 <= j < changes.len() && changes[j] == event;
    assert((gone + changes)[gone.len() + j] == event);
}

proof fn lemma_observed_events_are_kept(
    state: TrackedView,
    entities: Seq<LiveEntity>,
    last_run: u32,
    this_run: u32,
    index: int,
    event: InspectorEventView,
    zsts: Set<usize>,
)
    requires
        0 <= index < entities.len(),
        observe_entity(
            observe_entities(state, entities.take(index), last_run, this_run, zsts).0,
            entities[index],
            last_run,
            this_run,
            zsts,
        ).1.contains(event),
    ensures
        observe_entities(state, entities, last_run, this_run, zsts).1.contains(event),
    decreases entities.len(),
{
    let front = entities.drop_last();
    let (before, events) = observe_entities(state, front, last_run, this_run, zsts);
    let last = observe_entity(before, entities.last(), last_run, this_run, zsts).1;
    let all = observe_entities(state, entities, last_run, this_run, zsts).1;
    assert(all == events + last);
    if index == entities.len() - 1 {
        assert(entities.take(index) == front);
        assert(entities[index] == entities.last());
        let j = choose|j: int| 0 <= j < last.len() && last[j] == event;
        assert(all[events.len() + j] == event);
    } else {
        assert(front.take(index) == entities.take(index));
        assert(front[index] == entities[index]);
        lemma_observed_events_are_kept(state, front, last_run, this_run, index, event, zsts);
        let j = choose|j: int| 0 <= j < events.len() && events[j] == event;
        assert(all[j] == event);
    }
}

/// What is known of an entity when its first occurrence in the store is
/// observed: what was known of it before the tick.
pub proof fn lemma_state_before_first_occurrence(
    state: TrackedView,
    store: LiveStore,
    index: int,
    zsts: Set<usize>,
)
    requires
        is_first_occurrence(store.entities@, index),
    ensures
        state_before(state, store, index, zsts).known.contains_key(store.entities@[index].id)
            == state.known.contains_key(store.entities@[index].id),
        state.known.contains_key(store.entities@[index].id) ==> state_before(
            state,
            store,
            index,
            zsts,
        ).known[store.entities@[index].id] == state.known[store.entities@[index].id],
{
    let entities = store.entities@;
    let id = entities[index].id;
    let live = live_ids(entities);
    let front = entities.take(index);
    if is_live(front, id) {
        let j = choose|j: int| 0 <= j < front.len() && (#[trigger] front[j]).id == id;
        assert(entities[j].id == id);
    }
    lemma_observe_entities_elsewhere(
        after_removal(state, live),
        front,
        store.last_run,
        store.this_run,
        id,
        zsts,
    );
    assert(is_live(entities, id));
    assert(live.contains(id));
}

/// First-sight completeness: when an entity that was not known before the
/// tick is observed for the first time, the change event emitted for it lists
/// every component that it has, in order, each with its serialized value (none
/// for a zero-sized component, and none where the serializer gave none). An
/// entity without components is registered without an event.
pub proof fn lemma_first_sight_is_complete(
    state: TrackedView,
    store: LiveStore,
    index: int,
    zsts: Set<usize>,
)
    requires
        is_first_occurrence(store.entities@, index),
        !state.known.contains_key(store.entities@[index].id),
    ensures
        events_at(state, store, index, zsts) == change_event(
            store.entities@[index].id,
            first_sight_changes(store.entities@[index].components@, zsts),
        ),
        store.entities@[index].components@.len() > 0 ==> tracked_tick(
            state,
            store,
            zsts,
        ).1.contains(
            change(
                store.entities@[index].id,
                first_sight_changes(store.entities@[index].components@, zsts),
            ),
        ),
        tracked_tick(state, store, zsts).0.known.contains_key(store.entities@[index].id),
        component_ids(store.entities@[index].components@).subset_of(
            tracked_tick(state, store, zsts).0.known[store.entities@[index].id],
        ),
{
    let entities = store.entities@;
    let entity = entities[index];
    let live = live_ids(entities);
    let cleared = after_removal(state, live);
    lemma_state_before_first_occurrence(state, store, index, zsts);
    let event = change(entity.id, first_sight_changes(entity.components@, zsts));
    if entity.components@.len() > 0 {
        assert(events_at(state, store, index, zsts)[0] == event);
        lemma_events_at_are_emitted(state, store, index, event, zsts);
    }
    let before = state_before(state, store, index, zsts);
    let after = observe_entity(before, entity, store.last_run, store.this_run, zsts).0;
    assert(entities.take(index + 1).drop_last() == entities.take(index));
    assert(entities.take(index + 1).last() == entity);
    assert(observe_entities(
        cleared,
        entities.take(index + 1),
        store.last_run,
        store.this_run,
        zsts,
    ).0
        == after);
    lemma_observe_rest_grows(
        cleared,
        entities,
        store.last_run,
        store.this_run,
        index + 1,
        entity.id,
        zsts,
    );
}

proof fn lemma_observe_rest_grows(
    state: TrackedView,
    entities: Seq<LiveEntity>,
    last_run: u32,
    this_run: u32,
    done: int,
    id: u64,
    zsts: Set<usize>,
)
    requires
        0 <= done <= entities.len(),
        observe_entities(
            state,
            entities.take(done),
            last_run,
            this_run,
            zsts,
        ).0.known.contains_key(id),
    ensures
        observe_entities(state, entities, last_run, this_run, zsts).0.known.contains_key(id),
        observe_entities(
            state,
            entities.take(done),
            last_run,
            this_run,
            zsts,
        ).0.known[id].subset_of(
            observe_entities(state, entities, last_run, this_run, zsts).0.known[id],
        ),
    decreases entities.len() - done,
{
    if done == entities.len() {
        assert(entities.take(done) == entities);
    } else {
        let before = observe_entities(state, entities.take(done), last_run, this_run, zsts).0;
        let entity = entities[done];
        assert(entities.take(done + 1).drop_last() == entities.take(done));
        assert(entities.take(done + 1).last() == entity);
        let after = observe_entities(state, entities.take(done + 1), last_run, this_run, zsts).0;
        assert(after == observe_entity(before, entity, last_run, this_run, zsts).0);
        if entity.id == id {
            lemma_tracked_changes_grow(
                before.known[id],
                entity.components@,
                last_run,
                this_run,
                zsts,
            );
        }
        lemma_observe_rest_grows(state, entities, last_run, this_run, done + 1, id, zsts);
    }
}

/// Looking at components makes known only components that were looked at.
pub proof fn lemma_tracked_changes_bound(
    known: Set<usize>,
    components: Seq<LiveComponent>,
    last_run: u32,
    this_run: u32,
    zsts: Set<usize>,
)
    ensures
        tracked_changes(known, components, last_run, this_run, zsts).0.subset_of(
            known.union(component_ids(components)),
        ),
    decreases components.len(),
{
    if components.len() > 0 {
        let front = components.drop_last();
        lemma_tracked_changes_bound(known, front, last_run, this_run, zsts);
        let after = tracked_changes(known, components, last_run, this_run, zsts).0;
        assert forall|id: usize| after.contains(id) implies known.union(
            component_ids(components),
        ).contains(id) by {
            if component_ids(front).contains(id) {
                let k = choose|k: int| 0 <= k < front.len() && (#[trigger] front[k]).id == id;
                assert(components[k].id == id);
            }
            assert(components[components.len() - 1] == components.last());
        }
    }
}

/// A zero-sized component that is known on an entity is never reported again,
/// whatever its change tick says: the outcome of looking at the entity's
/// components is what it would be without that component.
pub proof fn lemma_known_zero_sized_is_silent(
    known: Set<usize>,
    components: Seq<LiveComponent>,
    position: int,
    last_run: u32,
    this_run: u32,
    zsts: Set<usize>,
)
    requires
        0 <= position < components.len(),
        zsts.contains(components[position].id),
        known.contains(components[position].id),
    ensures
        tracked_changes(known, components, last_run, this_run, zsts) == tracked_changes(
            known,
            components.remove(position),
            last_run,
            this_run,
            zsts,
        ),
    decreases components.len(),
{
    let front = components.drop_last();
    let last = components.last();
    assert(components[components.len() - 1] == last);
    if position == components.len() - 1 {
        assert(components.remove(position) == front);
        lemma_tracked_changes_grow(known, front, last_run, this_run, zsts);
        let before = tracked_changes(known, front, last_run, this_run, zsts).0;
        assert(before.contains(last.id));
        assert(known_with(before, last, last_run, this_run) =~= before);
    } else {
        lemma_known_zero_sized_is_silent(known, front, position, last_run, this_run, zsts);
        assert(front[position] == components[position]);
        assert(components.remove(position).drop_last() == front.remove(position));
        assert(components.remove(position).last() == last);
    }
}

/// A zero-sized component is reported when it is first registered: on an
/// entity on which it is not known, the first component of its type that has
/// changed since the previous observation is reported without a value, and is
/// known from then on.
pub proof fn lemma_new_zero_sized_is_reported(
    known: Set<usize>,
    components: Seq<LiveComponent>,
    position: int,
    last_run: u32,
    this_run: u32,
    zsts: Set<usize>,
)
    requires
        0 <= position < components.len(),
        zsts.contains(components[position].id),
        changed_since(components[position].changed, last_run, this_run),
        !known.contains(components[position].id),
        forall|j: int|
            0 <= j < position ==> (#[trigger] components[j]).id != components[position].id,
    ensures
        tracked_changes(known, components.take(position + 1), last_run, this_run, zsts).1
            == tracked_changes(known, components.take(position), last_run, this_run, zsts).1.push(
            (components[position].name@, None),
        ),
        tracked_changes(
            known,
            components,
            last_run,
            this_run,
            zsts,
        ).0.contains(components[position].id),
{
    let front = components.take(position);
    let upto = components.take(position + 1);
    let component = components[position];
    assert(upto.drop_last() == front);
    assert(upto.last() == component);
    lemma_tracked_changes_bound(known, front, last_run, this_run, zsts);
    if component_ids(front).contains(component.id) {
        let j = choose|j: int| 0 <= j < front.len() && (#[trigger] front[j]).id == component.id;
        assert(components[j].id == component.id);
    }
    lemma_tracked_changes_rest(known, components, position + 1, last_run, this_run, zsts);
}

proof fn lemma_tracked_changes_rest(
    known: Set<usize>,
    components: Seq<LiveComponent>,
    done: int,
    last_run: u32,
    this_run: u32,
    zsts: Set<usize>,
)
    requires
        0 <= done <= components.len(),
    ensures
        tracked_changes(known, components.take(done), last_run, this_run, zsts).0.subset_of(
            tracked_changes(known, components, last_run, this_run, zsts).0,
        ),
    decreases components.len() - done,
{
    if done == components.len() {
        assert(components.take(done) == components);
    } else {
        assert(components.take(done + 1).drop_last() == components.take(done));
        lemma_tracked_changes_rest(known, components, done + 1, last_run, this_run, zsts);
    }
}

/// A zero-sized component fires once: once it is known on an entity, a tick
/// that finds it changed again emits for that entity what it would emit
/// without the component. Stated of the first occurrence in the store of an
/// entity that was known before the tick.
pub proof fn lemma_zero_sized_fire_once(
    state: TrackedView,
    store: LiveStore,
    index: int,
    position: int,
    zsts: Set<usize>,
)
    requires
        is_first_occurrence(store.entities@, index),
        state.known.contains_key(store.entities@[index].id),
        0 <= position < store.entities@[index].components@.len(),
        zsts.contains(store.entities@[index].components@[position].id),
        state.known[store.entities@[index].id].contains(
            store.entities@[index].components@[position].id,
        ),
    ensures
        events_at(state, store, index, zsts) == change_event(
            store.entities@[index].id,
            tracked_changes(
                state.known[store.entities@[index].id],
                store.entities@[index].components@.remove(position),
                store.last_run,
                store.this_run,
                zsts,
            ).1,
        ),
{
    let entity = store.entities@[index];
    lemma_state_before_first_occurrence(state, store, index, zsts);
    lemma_known_zero_sized_is_silent(
        state.known[entity.id],
        entity.components@,
        position,
        store.last_run,
        store.this_run,
        zsts,
    );
}

/// What is known of an entity stays known for as long as the entity is live:
/// a tick in which the entity is live keeps it, and keeps every component
/// known on it.
pub proof fn lemma_known_components_persist(
    state: TrackedView,
    store: LiveStore,
    id: u64,
    zsts: Set<usize>,
)
    requires
        state.known.contains_key(id),
        is_live(store.entities@, id),
    ensures
        tracked_tick(state, store, zsts).0.known.contains_key(id),
        state.known[id].subset_of(tracked_tick(state, store, zsts).0.known[id]),
{
    let live = live_ids(store.entities@);
    let cleared = after_removal(state, live);
    assert(live.contains(id));
    assert(cleared.known.contains_key(id));
    assert(cleared.known[id] == state.known[id]);
    lemma_observe_entities_grow(cleared, store.entities@, store.last_run, store.this_run, id, zsts);
}

/// The tracking state after one tick on each of `stores`, in order.
pub open spec fn after_ticks(
    state: TrackedView,
    stores: Seq<LiveStore>,
    zsts: Set<usize>,
) -> TrackedView
    decreases stores.len(),
{
    if stores.len() == 0 {
        state
    } else {
        tracked_tick(after_ticks(state, stores.drop_last(), zsts), stores.last(), zsts).0
    }
}

/// However many ticks follow, a component that is known on an entity stays
/// known on it for as long as the entity is live at every one of them.
pub proof fn lemma_known_components_persist_over_ticks(
    state: TrackedView,
    stores: Seq<LiveStore>,
    id: u64,
    component: usize,
    zsts: Set<usize>,
)
    requires
        state.known.contains_key(id),
        state.known[id].contains(component),
        forall|t: int| 0 <= t < stores.len() ==> is_live((#[trigger] stores[t]).entities@, id),
    ensures
        after_ticks(state, stores, zsts).known.contains_key(id),
        after_ticks(state, stores, zsts).known[id].contains(component),
    decreases stores.len(),
{
    if stores.len() > 0 {
        let front = stores.drop_last();
        assert forall|t: int| 0 <= t < front.len() implies is_live(
            (#[trigger] front[t]).entities@,
            id,
        ) by {
            assert(front[t] == stores[t]);
        }
        lemma_known_components_persist_over_ticks(state, front, id, component, zsts);
        assert(stores.last() == stores[stores.len() - 1]);
        lemma_known_components_persist(after_ticks(state, front, zsts), stores.last(), id, zsts);
    }
}

/// Whether two components differ at most in their serialized value.
pub open spec fn same_but_value(first: LiveComponent, second: LiveComponent) -> bool {
    &&& first.id == second.id
    &&& first.name@ == second.name@
    &&& first.changed == second.changed
}

/// Whether two lists of components of one entity differ at most in
/// serialized values that a tick does not read.
pub open spec fn components_agree(
    entity_is_known: bool,
    first: Seq<LiveComponent>,
    second: Seq<LiveComponent>,
    last_run: u32,
    this_run: u32,
    zsts: Set<usize>,
) -> bool {
    &&& first.len() == second.len()
    &&& forall|k: int|
        0 <= k < first.len() ==> {
            &&& same_but_value(#[trigger] first[k], second[k])
            &&& value_is_read(
                entity_is_known,
                zsts.contains(first[k].id),
                first[k].changed,
                last_run,
                this_run,
            ) ==> first[k].serialized == second[k].serialized
        }
}

/// Whether two lists of entities differ at most in serialized values that a
/// tick on the tracking state `state` does not read.
pub open spec fn entities_agree(
    state: TrackedView,
    first: Seq<LiveEntity>,
    second: Seq<LiveEntity>,
    last_run: u32,
    this_run: u32,
    zsts: Set<usize>,
) -> bool {
    &&& first.len() == second.len()
    &&& forall|i: int|
        0 <= i < first.len() ==> {
            &&& (#[trigger] first[i]).id == second[i].id
            &&& components_agree(
                state.known.contains_key(first[i].id),
                first[i].components@,
                second[i].components@,
                last_run,
                this_run,
                zsts,
            )
        }
}

/// Whether two stores differ at most in serialized values that a tick on the
/// tracking state `state` does not read.
pub open spec fn stores_agree(
    state: TrackedView,
    first: LiveStore,
    second: LiveStore,
    zsts: Set<usize>,
) -> bool {
    &&& first.last_run == second.last_run
    &&& first.this_run == second.this_run
    &&& entities_agree(
        state,
        first.entities@,
        second.entities@,
        first.last_run,
        first.this_run,
        zsts,
    )
}

proof fn lemma_agreeing_components_tracked(
    known: Set<usize>,
    first: Seq<LiveComponent>,
    second: Seq<LiveComponent>,
    last_run: u32,
    this_run: u32,
    zsts: Set<usize>,
)
    requires
        components_agree(true, first, second, last_run, this_run, zsts),
    ensures
        tracked_changes(known, first, last_run, this_run, zsts) == tracked_changes(
            known,
            second,
            last_run,
            this_run,
            zsts,
        ),
    decreases first.len(),
{
    if first.len() > 0 {
        let front = first.drop_last();
        let other = second.drop_last();
        assert forall|k: int| 0 <= k < front.len() implies {
            &&& same_but_value(#[trigger] front[k], other[k])
            &&& value_is_read(
                true,
                zsts.contains(front[k].id),
                front[k].changed,
                last_run,
                this_run,
            )
                ==> front[k].serialized == other[k].serialized
        } by {
            assert(front[k] == first[k]);
            assert(other[k] == second[k]);
        }
        lemma_agreeing_components_tracked(known, front, other, last_run, this_run, zsts);
        let k = first.len() - 1;
        assert(first.last() == first[k]);
        assert(second.last() == second[k]);
        assert(same_but_value(first[k], second[k]));
    }
}

proof fn lemma_agreeing_components_first_sight(
    first: Seq<LiveComponent>,
    second: Seq<LiveComponent>,
    last_run: u32,
    this_run: u32,
    zsts: Set<usize>,
)
    requires
        components_agree(false, first, second, last_run, this_run, zsts),
    ensures
        first_sight_changes(first, zsts) == first_sight_changes(second, zsts),
        component_ids(first) == component_ids(second),
{
    assert forall|k: int| 0 <= k < first.len() implies report(#[trigger] first[k], zsts) == report(
        second[k],
        zsts,
    ) by {
        assert(same_but_value(first[k], second[k]));
    }
    assert(first_sight_changes(first, zsts) =~= first_sight_changes(second, zsts));
    assert forall|id: usize| component_ids(first).contains(id) == component_ids(second).contains(
        id,
    ) by {
        if component_ids(first).contains(id) {
            let k = choose|k: int| 0 <= k < first.len() && (#[trigger] first[k]).id == id;
            assert(same_but_value(first[k], second[k]));
            assert(second[k].id == id);
        }
        if component_ids(second).contains(id) {
            let k = choose|k: int| 0 <= k < second.len() && (#[trigger] second[k]).id == id;
            assert(same_but_value(first[k], second[k]));
            assert(first[k].id == id);
        }
    }
    assert(component_ids(first) =~= component_ids(second));
}

proof fn lemma_agreeing_entities_live(
    state: TrackedView,
    first: Seq<LiveEntity>,
    second: Seq<LiveEntity>,
    last_run: u32,
    this_run: u32,
    zsts: Set<usize>,
)
    requires
        entities_agree(state, first, second, last_run, this_run, zsts),
    ensures
        live_ids(first) == live_ids(second),
{
    assert forall|id: u64| live_ids(first).contains(id) == live_ids(second).contains(id) by {
        if is_live(first, id) {
            let i = choose|i: int| 0 <= i < first.len() && (#[trigger] first[i]).id == id;
            assert(second[i].id == id);
        }
        if is_live(second, id) {
            let i = choose|i: int| 0 <= i < second.len() && (#[trigger] second[i]).id == id;
            assert(first[i].id == second[i].id);
        }
    }
    assert(live_ids(first) =~= live_ids(second));
}

proof fn lemma_agreeing_entities_observed(
    state: TrackedView,
    cleared: TrackedView,
    first: Seq<LiveEntity>,
    second: Seq<LiveEntity>,
    last_run: u32,
    this_run: u32,
    zsts: Set<usize>,
)
    requires
        cleared.wf(),
        entities_agree(state, first, second, last_run, this_run, zsts),
        forall|i: int|
            0 <= i < first.len() && state.known.contains_key((#[trigger] first[i]).id)
                ==> cleared.known.contains_key(first[i].id),
        forall|id: u64| cleared.known.contains_key(id) ==> state.known.contains_key(id),
    ensures
        observe_entities(cleared, first, last_run, this_run, zsts) == observe_entities(
            cleared,
            second,
            last_run,
            this_run,
            zsts,
        ),
    decreases first.len(),
{
    if first.len() > 0 {
        let front = first.drop_last();
        let other = second.drop_last();
        assert forall|i: int| 0 <= i < front.len() implies {
            &&& (#[trigger] front[i]).id == other[i].id
            &&& components_agree(
                state.known.contains_key(front[i].id),
                front[i].components@,
                other[i].components@,
                last_run,
                this_run,
                zsts,
            )
        } by {
            assert(front[i] == first[i]);
            assert(other[i] == second[i]);
        }
        assert forall|i: int|
            0 <= i < front.len() && state.known.contains_key(
                (#[trigger] front[i]).id,
            ) implies cleared.known.contains_key(front[i].id) by {
            assert(front[i] == first[i]);
        }
        lemma_agreeing_entities_observed(state, cleared, front, other, last_run, this_run, zsts);
        lemma_observe_entities_known(cleared, front, last_run, this_run, zsts);
        let before = observe_entities(cleared, front, last_run, this_run, zsts).0;
        let k = first.len() - 1;
        let entity = first[k];
        let twin = second[k];
        assert(first.last() == entity);
        assert(second.last() == twin);
        assert(entity.id == twin.id);
        assert(before.known.dom().contains(entity.id) == (cleared.known.dom().contains(entity.id)
            || live_ids(front).contains(entity.id)));
        if before.known.contains_key(entity.id) {
            assert forall|c: int| 0 <= c < entity.components@.len() implies {
                &&& same_but_value(#[trigger] entity.components@[c], twin.components@[c])
                &&& value_is_read(
                    true,
                    zsts.contains(entity.components@[c].id),
                    entity.components@[c].changed,
                    last_run,
                    this_run,
                ) ==> entity.components@[c].serialized == twin.components@[c].serialized
            } by {
                assert(same_but_value(entity.components@[c], twin.components@[c]));
            }
            lemma_agreeing_components_tracked(
                before.known[entity.id],
                entity.components@,
                twin.components@,
                last_run,
                this_run,
                zsts,
            );
        } else {
            assert(!cleared.known.contains_key(entity.id));
            assert(!state.known.contains_key(entity.id));
            lemma_agreeing_components_first_sight(
                entity.components@,
                twin.components@,
                last_run,
                this_run,
                zsts,
            );
        }
    }
}

/// A tick depends on the serialized values that it reads and on no others:
/// two stores that differ at most in values that the tick does not read lead
/// to the same tracking state and to the same events. So the serializer has
/// to be asked only where [`value_is_read`] holds.
pub proof fn lemma_unread_values_do_not_matter(
    state: TrackedView,
    first: LiveStore,
    second: LiveStore,
    zsts: Set<usize>,
)
    requires
        state.wf(),
        stores_agree(state, first, second, zsts),
    ensures
        tracked_tick(state, first, zsts) == tracked_tick(state, second, zsts),
{
    let live = live_ids(first.entities@);
    lemma_agreeing_entities_live(
        state,
        first.entities@,
        second.entities@,
        first.last_run,
        first.this_run,
        zsts,
    );
    lemma_after_removal_wf(state, live);
    let cleared = after_removal(state, live);
    assert forall|i: int|
        0 <= i < first.entities@.len() && state.known.contains_key(
            (#[trigger] first.entities@[i]).id,
        ) implies cleared.known.contains_key(first.entities@[i].id) by {
        assert(is_live(first.entities@, first.entities@[i].id));
        assert(live.contains(first.entities@[i].id));
    }
    lemma_agreeing_entities_observed(
        state,
        cleared,
        first.entities@,
        second.entities@,
        first.last_run,
        first.this_run,
        zsts,
    );
}

} // verus!
