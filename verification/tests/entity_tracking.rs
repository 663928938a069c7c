use bevy_remote_inspector::entity::EntityMutation;
use bevy_remote_inspector::entity::LiveComponent;
use bevy_remote_inspector::entity::LiveEntity;
use bevy_remote_inspector::entity::LiveStore;
use bevy_remote_inspector::entity::ZeroSizedTypes;
use bevy_remote_inspector::event::InspectorEvent;
use bevy_remote_inspector::state::TrackedData;
use bevy_remote_inspector::tick::MAX_CHANGE_AGE;
use serde_json::Value;

/// The component types from 100 on are zero-sized.
fn zero_sized() -> ZeroSizedTypes {
    let mut zsts = ZeroSizedTypes::new();
    for id in 100..200 {
        zsts.insert(id);
    }
    zsts
}

fn data(id: usize, name: &str, changed: u32, serialized: Option<Value>) -> LiveComponent {
    assert!(id < 100);
    LiveComponent { id, name: name.to_string(), changed, serialized }
}

fn marker(id: usize, name: &str, changed: u32) -> LiveComponent {
    assert!(zero_sized().contains(id));
    LiveComponent { id, name: name.to_string(), changed, serialized: None }
}

fn entity(id: u64, components: Vec<LiveComponent>) -> LiveEntity {
    LiveEntity { id, components }
}

fn store(last_run: u32, this_run: u32, entities: Vec<LiveEntity>) -> LiveStore {
    LiveStore { last_run, this_run, entities }
}

fn changed(entity: u64, changes: Vec<(&str, Option<Value>)>) -> InspectorEvent {
    InspectorEvent::Entity {
        entity,
        mutation: EntityMutation::Change(
            changes.into_iter().map(|(name, value)| (name.to_string(), value)).collect(),
        ),
    }
}

fn removed(entity: u64) -> InspectorEvent {
    InspectorEvent::Entity { entity, mutation: EntityMutation::Remove }
}

fn tick(state: &mut TrackedData, store: &LiveStore) -> Vec<InspectorEvent> {
    let mut events = Vec::new();
    state.track_entities(&mut events, store, &zero_sized());
    events
}

#[test]
fn spawn_idle_mutate_despawn() {
    let mut state = TrackedData::new();

    let first = store(
        0,
        1,
        vec![entity(7, vec![data(1, "A", 1, Some(Value::from(5))), marker(102, "B", 1)])],
    );
    assert_eq!(
        tick(&mut state, &first),
        vec![changed(7, vec![("A", Some(Value::from(5))), ("B", None)])]
    );
    assert!(state.is_tracked(7));
    assert!(state.is_component_tracked(7, 1));
    assert!(state.is_component_tracked(7, 102));

    let second = store(
        1,
        2,
        vec![entity(7, vec![data(1, "A", 1, Some(Value::from(5))), marker(102, "B", 1)])],
    );
    assert_eq!(tick(&mut state, &second), vec![]);

    let third = store(
        2,
        3,
        vec![entity(7, vec![data(1, "A", 3, Some(Value::from(6))), marker(102, "B", 1)])],
    );
    assert_eq!(tick(&mut state, &third), vec![changed(7, vec![("A", Some(Value::from(6)))])]);

    let fourth = store(3, 4, vec![]);
    assert_eq!(tick(&mut state, &fourth), vec![removed(7)]);
    assert!(!state.is_tracked(7));
    assert!(state.entities().is_empty());
}

#[test]
fn tick_without_change_emits_nothing() {
    let mut state = TrackedData::new();
    let entities = || {
        vec![
            entity(1, vec![data(10, "Position", 4, Some(Value::from("here")))]),
            entity(2, vec![marker(111, "Player", 4), data(12, "Health", 4, None)]),
            entity(3, vec![]),
        ]
    };
    let first = tick(&mut state, &store(3, 4, entities()));
    assert_eq!(first.len(), 2);
    let before: Vec<u64> = state.entities().clone();

    assert_eq!(tick(&mut state, &store(4, 5, entities())), vec![]);
    assert_eq!(tick(&mut state, &store(5, 6, entities())), vec![]);
    assert_eq!(state.entities(), &before);
    assert!(state.is_component_tracked(2, 12));
}

#[test]
fn removed_entity_has_no_change_in_the_same_batch() {
    let mut state = TrackedData::new();
    tick(
        &mut state,
        &store(
            0,
            1,
            vec![
                entity(1, vec![data(10, "A", 1, Some(Value::from(1)))]),
                entity(2, vec![data(10, "A", 1, Some(Value::from(2)))]),
            ],
        ),
    );
    let events = tick(
        &mut state,
        &store(
            1,
            2,
            vec![
                entity(2, vec![data(10, "A", 2, Some(Value::from(3)))]),
                entity(3, vec![data(10, "A", 2, Some(Value::from(4)))]),
            ],
        ),
    );
    assert_eq!(
        events,
        vec![
            removed(1),
            changed(2, vec![("A", Some(Value::from(3)))]),
            changed(3, vec![("A", Some(Value::from(4)))]),
        ]
    );
    assert!(!state.is_tracked(1));
    assert!(!state.entities().contains(&1));
    assert_eq!(state.entities(), &vec![2, 3]);
}

#[test]
fn removals_come_first_in_the_order_of_first_sight() {
    let mut state = TrackedData::new();
    tick(
        &mut state,
        &store(0, 1, vec![entity(30, vec![]), entity(10, vec![]), entity(20, vec![])]),
    );
    assert_eq!(state.entities(), &vec![30, 10, 20]);
    let events = tick(
        &mut state,
        &store(1, 2, vec![entity(40, vec![marker(101, "M", 2)]), entity(10, vec![])]),
    );
    assert_eq!(events, vec![removed(30), removed(20), changed(40, vec![("M", None)])]);
    assert_eq!(state.entities(), &vec![10, 40]);
}

#[test]
fn first_sight_lists_every_component() {
    let mut state = TrackedData::new();
    let list = Value::from(vec![Value::from(1), Value::from("two"), Value::Null]);
    let events = tick(
        &mut state,
        &store(
            8,
            9,
            vec![entity(
                5,
                vec![
                    data(1, "Serializable", 2, Some(list.clone())),
                    data(2, "Opaque", 2, None),
                    marker(103, "Marker", 2),
                    data(4, "Old", 0, Some(Value::from(true))),
                ],
            )],
        ),
    );
    assert_eq!(
        events,
        vec![changed(
            5,
            vec![
                ("Serializable", Some(list)),
                ("Opaque", None),
                ("Marker", None),
                ("Old", Some(Value::from(true))),
            ]
        )]
    );
    for component in [1, 2, 103, 4] {
        assert!(state.is_component_tracked(5, component));
    }
    assert!(!state.is_component_tracked(5, 3));
}

#[test]
fn zero_sized_value_is_never_reported() {
    let mut state = TrackedData::new();
    let mut unit = marker(103, "Unit", 1);
    unit.serialized = Some(Value::Null);
    let events = tick(&mut state, &store(0, 1, vec![entity(1, vec![unit])]));
    assert_eq!(events, vec![changed(1, vec![("Unit", None)])]);
}

#[test]
fn entity_without_components_is_registered_silently() {
    let mut state = TrackedData::new();
    assert_eq!(tick(&mut state, &store(0, 1, vec![entity(9, vec![])])), vec![]);
    assert!(state.is_tracked(9));
    assert_eq!(tick(&mut state, &store(1, 2, vec![])), vec![removed(9)]);
}

#[test]
fn zero_sized_component_fires_once() {
    let mut state = TrackedData::new();
    tick(&mut state, &store(0, 1, vec![entity(1, vec![data(1, "A", 1, Some(Value::from(0)))])]));

    let added = tick(
        &mut state,
        &store(
            1,
            2,
            vec![entity(1, vec![data(1, "A", 1, Some(Value::from(0))), marker(102, "Frozen", 2)])],
        ),
    );
    assert_eq!(added, vec![changed(1, vec![("Frozen", None)])]);

    for run in 3u32..8 {
        let again = tick(
            &mut state,
            &store(
                run - 1,
                run,
                vec![entity(
                    1,
                    vec![data(1, "A", 1, Some(Value::from(0))), marker(102, "Frozen", run)],
                )],
            ),
        );
        assert_eq!(again, vec![]);
    }

    let both = tick(
        &mut state,
        &store(
            8,
            9,
            vec![entity(1, vec![data(1, "A", 9, Some(Value::from(1))), marker(102, "Frozen", 9)])],
        ),
    );
    assert_eq!(both, vec![changed(1, vec![("A", Some(Value::from(1)))])]);
}

#[test]
fn zero_sized_component_fires_again_after_respawn() {
    let mut state = TrackedData::new();
    let spawned = store(0, 1, vec![entity(1, vec![marker(102, "Frozen", 1)])]);
    assert_eq!(tick(&mut state, &spawned), vec![changed(1, vec![("Frozen", None)])]);
    assert_eq!(tick(&mut state, &store(1, 2, vec![])), vec![removed(1)]);
    let respawned = store(2, 3, vec![entity(1, vec![marker(102, "Frozen", 3)])]);
    assert_eq!(tick(&mut state, &respawned), vec![changed(1, vec![("Frozen", None)])]);
}

#[test]
fn failed_serialization_is_reported_once_for_a_new_component() {
    let mut state = TrackedData::new();
    tick(&mut state, &store(0, 1, vec![entity(1, vec![])]));

    let added = tick(&mut state, &store(1, 2, vec![entity(1, vec![data(4, "Opaque", 2, None)])]));
    assert_eq!(added, vec![changed(1, vec![("Opaque", None)])]);
    assert!(state.is_component_tracked(1, 4));

    let mutated = tick(&mut state, &store(2, 3, vec![entity(1, vec![data(4, "Opaque", 3, None)])]));
    assert_eq!(mutated, vec![]);

    let readable = tick(
        &mut state,
        &store(3, 4, vec![entity(1, vec![data(4, "Opaque", 4, Some(Value::from(1)))])]),
    );
    assert_eq!(readable, vec![changed(1, vec![("Opaque", Some(Value::from(1)))])]);
}

#[test]
fn one_failing_component_does_not_hide_the_others() {
    let mut state = TrackedData::new();
    let components =
        |run: u32| vec![data(1, "Opaque", run, None), data(2, "Plain", run, Some(run.into()))];
    tick(&mut state, &store(0, 1, vec![entity(1, components(1))]));
    let events = tick(&mut state, &store(1, 2, vec![entity(1, components(2))]));
    assert_eq!(events, vec![changed(1, vec![("Plain", Some(Value::from(2u32)))])]);
}

#[test]
fn unchanged_component_on_a_known_entity_is_skipped() {
    let mut state = TrackedData::new();
    tick(&mut state, &store(4, 5, vec![entity(1, vec![data(1, "A", 5, Some(Value::from(1)))])]));
    let events = tick(
        &mut state,
        &store(
            5,
            6,
            vec![entity(
                1,
                vec![
                    data(1, "A", 5, Some(Value::from(1))),
                    data(2, "Stale", 3, Some(Value::from(2))),
                ],
            )],
        ),
    );
    assert_eq!(events, vec![]);
    assert!(!state.is_component_tracked(1, 2));
}

#[test]
fn component_taken_off_a_live_entity_is_not_reported() {
    let mut state = TrackedData::new();
    tick(
        &mut state,
        &store(
            0,
            1,
            vec![entity(
                1,
                vec![data(1, "A", 1, Some(Value::from(1))), data(2, "B", 1, Some(Value::from(2)))],
            )],
        ),
    );
    let events =
        tick(&mut state, &store(1, 2, vec![entity(1, vec![data(1, "A", 1, Some(1.into()))])]));
    assert_eq!(events, vec![]);
    assert!(state.is_component_tracked(1, 2));
}

#[test]
fn events_are_appended_after_those_already_queued() {
    let mut state = TrackedData::new();
    let mut events = vec![removed(99)];
    state.track_entities(
        &mut events,
        &store(0, 1, vec![entity(1, vec![data(1, "A", 1, Some(Value::from(1)))])]),
        &zero_sized(),
    );
    assert_eq!(events, vec![removed(99), changed(1, vec![("A", Some(Value::from(1)))])]);
}

#[test]
fn change_ticks_wrap_around() {
    let mut state = TrackedData::new();
    tick(&mut state, &store(0, 1, vec![entity(1, vec![])]));
    let last_run = u32::MAX - 1;
    let events = tick(
        &mut state,
        &store(
            last_run,
            3,
            vec![entity(
                1,
                vec![
                    data(1, "AfterWrap", 1, Some(Value::from(1))),
                    data(2, "BeforeLastRun", u32::MAX - 5, Some(Value::from(2))),
                    data(3, "AtLastRun", last_run, Some(Value::from(3))),
                    data(4, "JustAfter", u32::MAX, Some(Value::from(4))),
                ],
            )],
        ),
    );
    assert_eq!(
        events,
        vec![changed(
            1,
            vec![("AfterWrap", Some(Value::from(1))), ("JustAfter", Some(Value::from(4)))]
        )]
    );
}

#[test]
fn change_ticks_older_than_the_largest_age_count_as_unchanged() {
    let mut state = TrackedData::new();
    tick(&mut state, &store(0, 1, vec![entity(1, vec![])]));
    let events = tick(
        &mut state,
        &store(
            0,
            4_000_000_000,
            vec![entity(
                1,
                vec![
                    data(1, "TooOld", 500_000_000, Some(Value::from(1))),
                    data(2, "Recent", 3_999_999_999, Some(Value::from(2))),
                ],
            )],
        ),
    );
    assert_eq!(events, vec![changed(1, vec![("Recent", Some(Value::from(2)))])]);

    let edge = tick(
        &mut state,
        &store(
            0,
            3_258_167_296,
            vec![entity(
                1,
                vec![
                    data(3, "AgeOne", 3_258_167_295, Some(Value::from(3))),
                    data(4, "AgeZero", 3_258_167_296, Some(Value::from(4))),
                    data(5, "AgeFull", 0, Some(Value::from(5))),
                ],
            )],
        ),
    );
    assert_eq!(
        edge,
        vec![changed(1, vec![("AgeOne", Some(Value::from(3))), ("AgeZero", Some(Value::from(4)))])]
    );
}

#[test]
fn entity_listed_twice_is_registered_once() {
    let mut state = TrackedData::new();
    let events = tick(
        &mut state,
        &store(
            0,
            1,
            vec![
                entity(1, vec![data(1, "A", 1, Some(Value::from(1)))]),
                entity(1, vec![data(1, "A", 1, Some(Value::from(1))), marker(102, "M", 1)]),
            ],
        ),
    );
    assert_eq!(
        events,
        vec![
            changed(1, vec![("A", Some(Value::from(1)))]),
            changed(1, vec![("A", Some(Value::from(1))), ("M", None)]),
        ]
    );
    assert_eq!(state.entities(), &vec![1]);
}

#[test]
fn new_state_knows_nothing() {
    let state = TrackedData::default();
    assert!(state.entities().is_empty());
    assert!(!state.is_tracked(0));
    assert!(!state.is_component_tracked(0, 0));
    assert!(state.captured_schedules().is_none());
}

#[test]
fn serialized_value_is_read_only_where_a_tick_needs_it() {
    let mut state = TrackedData::new();
    let zsts = zero_sized();
    assert!(state.reads_value(&zsts, 1, 1, 0, 5, 6));
    assert!(!state.reads_value(&zsts, 1, 101, 6, 5, 6));

    tick(&mut state, &store(5, 6, vec![entity(1, vec![data(1, "A", 6, Some(Value::from(1)))])]));
    assert!(!state.reads_value(&zsts, 1, 1, 6, 6, 7));
    assert!(state.reads_value(&zsts, 1, 1, 7, 6, 7));
    assert!(!state.reads_value(&zsts, 1, 101, 7, 6, 7));
    assert!(state.reads_value(&zsts, 2, 1, 0, 6, 7));
    assert!(state.reads_value(&ZeroSizedTypes::new(), 1, 101, 7, 6, 7));
}

#[test]
fn unread_values_do_not_change_the_outcome() {
    let run = |fill: bool| {
        let mut state = TrackedData::new();
        let value = |value: i32| Some(Value::from(value));
        let unread = |value: i32| if fill { Some(Value::from(value)) } else { None };
        let mut events = tick(
            &mut state,
            &store(0, 1, vec![entity(1, vec![data(1, "A", 1, value(1)), marker(102, "M", 1)])]),
        );
        let mut marked = marker(102, "M", 2);
        marked.serialized = unread(0);
        events.extend(tick(
            &mut state,
            &store(
                1,
                2,
                vec![
                    entity(1, vec![data(1, "A", 1, unread(1)), marked, data(3, "B", 2, value(3))]),
                    entity(2, vec![data(1, "A", 0, value(4))]),
                ],
            ),
        ));
        events
    };
    assert_eq!(run(true), run(false));
    assert_eq!(run(true).len(), 3);
}

#[test]
fn largest_age_is_the_one_of_the_store() {
    assert_eq!(MAX_CHANGE_AGE, bevy::ecs::change_detection::MAX_CHANGE_AGE);
    assert_eq!(MAX_CHANGE_AGE, 3_258_167_296);
}

#[test]
fn change_detection_follows_the_stated_rule() {
    let mut state = TrackedData::new();
    let zsts = zero_sized();
    tick(&mut state, &store(0, 1, vec![entity(1, vec![])]));
    let age = |earlier: u32, later: u32| later.wrapping_sub(earlier).min(MAX_CHANGE_AGE);
    let edges = [
        0,
        1,
        2,
        MAX_CHANGE_AGE - 1,
        MAX_CHANGE_AGE,
        MAX_CHANGE_AGE + 1,
        u32::MAX / 2,
        u32::MAX - 1,
        u32::MAX,
    ];
    let mut samples: Vec<u32> = edges.to_vec();
    let mut seed: u32 = 0x9E37_79B9;
    for _ in 0..40 {
        seed = seed.wrapping_mul(1_664_525).wrapping_add(1_013_904_223);
        samples.push(seed);
    }
    let mut changed = 0;
    for &component in &samples {
        for &last_run in &samples {
            for &this_run in &samples {
                let expected = age(last_run, this_run) > age(component, this_run);
                assert_eq!(
                    state.reads_value(&zsts, 1, 1, component, last_run, this_run),
                    expected,
                    "component {component}, last run {last_run}, this run {this_run}"
                );
                changed += expected as usize;
            }
        }
    }
    assert!(changed > 0 && changed < samples.len().pow(3));
}

#[test]
fn registry_holds_what_was_registered() {
    let mut zsts = ZeroSizedTypes::default();
    assert!(!zsts.contains(4));
    zsts.insert(4);
    zsts.insert(9);
    zsts.insert(4);
    assert!(zsts.contains(4) && zsts.contains(9));
    assert!(!zsts.contains(5));
}

#[test]
fn type_outside_the_registry_carries_data() {
    let mut state = TrackedData::new();
    let mut events = Vec::new();
    let spawned = store(0, 1, vec![entity(1, vec![data(7, "Tag", 1, Some(Value::Null))])]);
    state.track_entities(&mut events, &spawned, &ZeroSizedTypes::new());
    assert_eq!(events, vec![changed(1, vec![("Tag", Some(Value::Null))])]);

    let mut zsts = ZeroSizedTypes::new();
    zsts.insert(7);
    let mut state = TrackedData::new();
    let mut events = Vec::new();
    state.track_entities(&mut events, &spawned, &zsts);
    assert_eq!(events, vec![changed(1, vec![("Tag", None)])]);
}
