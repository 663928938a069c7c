use bevy_remote_inspector::capture::clone_main_schedule_order;
use bevy_remote_inspector::capture::collect_update_schedule;
use bevy_remote_inspector::capture::get_schedule;
use bevy_remote_inspector::capture::unresolved_labels;
use bevy_remote_inspector::capture::ClonedMainScheduleOrder;
use bevy_remote_inspector::capture::FixedMainScheduleOrder;
use bevy_remote_inspector::capture::ScheduleRef;
use bevy_remote_inspector::capture::UpdateSchedule;
use bevy_remote_inspector::entity::LiveEntity;
use bevy_remote_inspector::entity::LiveStore;
use bevy_remote_inspector::entity::ZeroSizedTypes;
use bevy_remote_inspector::event::InspectorEvent;
use bevy_remote_inspector::graph::NodeId;
use bevy_remote_inspector::schedule::Dag;
use bevy_remote_inspector::schedule::Schedule;
use bevy_remote_inspector::schedule::ScheduleInfo;
use bevy_remote_inspector::schedule::SetInfo;
use bevy_remote_inspector::schedule::SystemInfo;
use bevy_remote_inspector::schedule::SystemSetNode;
use bevy_remote_inspector::state::TrackedData;
use bevy_remote_inspector::wire::get_node_id;
use petgraph::graphmap::DiGraphMap;

fn system(index: usize, name: &str) -> SystemInfo {
    SystemInfo { id: NodeId::System(index), name: name.to_string() }
}

fn set(index: usize, name: &str, system_type: bool) -> SystemSetNode {
    SystemSetNode { id: NodeId::SystemSet(index), name: name.to_string(), system_type }
}

fn dag(nodes: Vec<NodeId>, edges: Vec<(NodeId, NodeId)>, topsort: Vec<NodeId>) -> Dag {
    let mut graph = DiGraphMap::new();
    for node in nodes {
        graph.add_node(node);
    }
    for (from, to) in edges {
        graph.add_edge(from, to, ());
    }
    Dag { graph, topsort }
}

fn plain_schedule(label: &str, systems: Vec<&str>) -> Schedule {
    let systems: Vec<SystemInfo> =
        systems.into_iter().enumerate().map(|(index, name)| system(index, name)).collect();
    let nodes: Vec<NodeId> = systems.iter().map(|system| system.id).collect();
    Schedule {
        label: label.to_string(),
        systems,
        system_sets: vec![],
        hierarchy: dag(nodes.clone(), vec![], nodes.clone()),
        dependency: dag(nodes, vec![], vec![]),
    }
}

fn plain_info(label: &str, systems: Vec<&str>) -> ScheduleInfo {
    ScheduleInfo::from_schedule(&plain_schedule(label, systems))
}

fn direct(label: &str) -> ScheduleRef {
    ScheduleRef::Direct(label.to_string())
}

fn sample_schedule() -> Schedule {
    let (move_player, draw) = (NodeId::System(0), NodeId::System(1));
    let (gameplay, around_move, around_draw) =
        (NodeId::SystemSet(0), NodeId::SystemSet(1), NodeId::SystemSet(2));
    Schedule {
        label: "Update".to_string(),
        systems: vec![system(0, "move_player"), system(1, "draw")],
        system_sets: vec![
            set(1, "SystemTypeSet(move_player)", true),
            set(0, "Gameplay", false),
            set(2, "SystemTypeSet(draw)", true),
        ],
        hierarchy: dag(
            vec![],
            vec![
                (gameplay, move_player),
                (around_move, move_player),
                (around_draw, draw),
                (gameplay, around_draw),
            ],
            vec![gameplay, around_move, around_draw, move_player, draw],
        ),
        dependency: dag(
            vec![move_player, draw, gameplay, around_move],
            vec![(move_player, draw), (around_move, draw), (gameplay, draw)],
            vec![],
        ),
    }
}

#[test]
fn snapshot_leaves_out_implicit_sets() {
    let (move_player, draw) = (NodeId::System(0), NodeId::System(1));
    let gameplay = NodeId::SystemSet(0);
    let info = ScheduleInfo::from_schedule(&sample_schedule());
    assert_eq!(
        info,
        ScheduleInfo {
            name: "Update".to_string(),
            systems: vec![system(0, "move_player"), system(1, "draw")],
            sets: vec![SetInfo { id: gameplay, name: "Gameplay".to_string() }],
            hierarchy_nodes: vec![
                (gameplay, vec![move_player], vec![]),
                (move_player, vec![], vec![gameplay]),
                (draw, vec![], vec![]),
            ],
            hierarchy_edges: vec![(gameplay, move_player)],
            dependency_nodes: vec![
                (move_player, vec![draw], vec![]),
                (draw, vec![], vec![move_player, gameplay]),
                (gameplay, vec![draw], vec![]),
            ],
            dependency_edges: vec![(move_player, draw), (gameplay, draw)],
        }
    );
}

#[test]
fn snapshot_mentions_no_implicit_set() {
    let schedule = sample_schedule();
    let implicit: Vec<NodeId> = schedule
        .system_sets
        .iter()
        .filter(|set| set.system_type)
        .map(|set| set.id)
        .collect();
    let info = ScheduleInfo::from_schedule(&schedule);
    let nodes = info.hierarchy_nodes.iter().chain(info.dependency_nodes.iter());
    for (id, outgoing, incoming) in nodes {
        assert!(!implicit.contains(id));
        assert!(outgoing.iter().all(|node| !implicit.contains(node)));
        assert!(incoming.iter().all(|node| !implicit.contains(node)));
    }
    for (from, to) in info.hierarchy_edges.iter().chain(info.dependency_edges.iter()) {
        assert!(!implicit.contains(from) && !implicit.contains(to));
    }
    assert!(info.sets.iter().all(|set| !implicit.contains(&set.id)));
}

#[test]
fn system_with_the_index_of_an_implicit_set_stays() {
    let schedule = Schedule {
        label: "Main".to_string(),
        systems: vec![system(0, "first"), system(1, "second")],
        system_sets: vec![set(0, "SystemTypeSet(first)", true)],
        hierarchy: dag(
            vec![],
            vec![(NodeId::SystemSet(0), NodeId::System(0))],
            vec![NodeId::SystemSet(0), NodeId::System(0), NodeId::System(1)],
        ),
        dependency: dag(vec![], vec![(NodeId::System(0), NodeId::System(1))], vec![]),
    };
    let info = ScheduleInfo::from_schedule(&schedule);
    assert_eq!(
        info.hierarchy_nodes,
        vec![(NodeId::System(0), vec![], vec![]), (NodeId::System(1), vec![], vec![])]
    );
    assert_eq!(info.hierarchy_edges, vec![]);
    assert_eq!(info.sets, vec![]);
    assert_eq!(
        info.dependency_nodes,
        vec![
            (NodeId::System(0), vec![NodeId::System(1)], vec![]),
            (NodeId::System(1), vec![], vec![NodeId::System(0)]),
        ]
    );
    assert_eq!(info.dependency_edges, vec![(NodeId::System(0), NodeId::System(1))]);
}

#[test]
fn snapshot_of_an_empty_schedule() {
    let info = plain_info("Empty", vec![]);
    let mut expected = ScheduleInfo::default();
    assert_eq!(expected.name, "");
    expected.name = "Empty".to_string();
    assert_eq!(info, expected);
}

#[test]
fn snapshot_clone_is_equal() {
    let info = ScheduleInfo::from_schedule(&sample_schedule());
    assert_eq!(info.clone(), info);
    assert_eq!(system(3, "s").clone(), system(3, "s"));
    let named = SetInfo { id: NodeId::SystemSet(4), name: "Named".to_string() };
    assert_eq!(named.clone(), named);
}

#[test]
fn node_names_on_the_wire() {
    assert_eq!(get_node_id(&NodeId::System(0)), "System(0)");
    assert_eq!(get_node_id(&NodeId::System(3)), "System(3)");
    assert_eq!(get_node_id(&NodeId::SystemSet(12)), "Set(12)");
    assert_eq!(get_node_id(&NodeId::SystemSet(9)), "Set(9)");
    assert_eq!(get_node_id(&NodeId::System(10)), "System(10)");
    assert_eq!(get_node_id(&NodeId::System(1234567890)), "System(1234567890)");
    assert_eq!(get_node_id(&NodeId::SystemSet(usize::MAX)), format!("Set({})", usize::MAX));
}

#[test]
fn schedule_lookup_takes_the_first_with_the_label() {
    let schedules = vec![
        plain_schedule("First", vec!["a"]),
        plain_schedule("Update", vec!["b"]),
        plain_schedule("Update", vec!["c"]),
    ];
    let found = get_schedule(&schedules, &"Update".to_string()).unwrap();
    assert_eq!(found.systems, vec![system(0, "b")]);
    assert!(get_schedule(&schedules, &"Last".to_string()).is_none());
    assert!(get_schedule(&vec![], &"First".to_string()).is_none());
}

#[test]
fn early_capture_is_made_once() {
    let mut update = UpdateSchedule::new("Update".to_string());
    assert!(!update.initialized);
    assert_eq!(update.info, ScheduleInfo::default());

    collect_update_schedule(&mut update, &vec![plain_schedule("Update", vec!["early"])]);
    assert!(update.initialized);
    assert_eq!(update.label, "Update");
    assert_eq!(update.info, plain_info("Update", vec!["early"]));

    collect_update_schedule(&mut update, &vec![plain_schedule("Update", vec!["late"])]);
    assert_eq!(update.info, plain_info("Update", vec!["early"]));
}

#[test]
fn early_capture_without_the_schedule_keeps_the_empty_snapshot() {
    let mut update = UpdateSchedule::new("Update".to_string());
    collect_update_schedule(&mut update, &vec![plain_schedule("First", vec!["a"])]);
    assert!(update.initialized);
    assert_eq!(update.info, ScheduleInfo::default());
}

#[test]
fn main_order_is_copied() {
    let startup = vec![direct("PreStartup"), direct("Startup")];
    let labels = vec![direct("First"), ScheduleRef::NestedSubLoop, direct("Update")];
    let order = clone_main_schedule_order(&startup, &labels);
    assert_eq!(order, ClonedMainScheduleOrder { startup_labels: startup, labels });
}

fn sample_order() -> (ClonedMainScheduleOrder, FixedMainScheduleOrder, Vec<Schedule>) {
    let order = ClonedMainScheduleOrder {
        startup_labels: vec![direct("Startup")],
        labels: vec![
            direct("First"),
            ScheduleRef::NestedSubLoop,
            direct("Update"),
            direct("Missing"),
            direct("Last"),
        ],
    };
    let fixed = FixedMainScheduleOrder {
        labels: vec!["FixedFirst".to_string(), "FixedGone".to_string(), "FixedUpdate".to_string()],
    };
    let schedules = vec![
        plain_schedule("Last", vec!["l"]),
        plain_schedule("FixedUpdate", vec!["fu"]),
        plain_schedule("FixedFirst", vec!["ff"]),
        plain_schedule("Startup", vec!["s"]),
        plain_schedule("First", vec!["f"]),
    ];
    (order, fixed, schedules)
}

#[test]
fn capture_follows_the_configured_order() {
    let (order, fixed, schedules) = sample_order();
    let mut update = UpdateSchedule::new("Update".to_string());
    collect_update_schedule(&mut update, &vec![plain_schedule("Update", vec!["u"])]);

    let mut state = TrackedData::new();
    let mut events = Vec::new();
    state.track_schedules(&mut events, &update, &order, &fixed, &schedules);

    let expected = vec![
        plain_info("Startup", vec!["s"]),
        plain_info("First", vec!["f"]),
        plain_info("FixedFirst", vec!["ff"]),
        plain_info("FixedUpdate", vec!["fu"]),
        plain_info("Update", vec!["u"]),
        plain_info("Last", vec!["l"]),
    ];
    assert_eq!(state.captured_schedules(), Some(&expected));
    assert_eq!(events, vec![InspectorEvent::Schedules { schedules: expected }]);
}

#[test]
fn capture_prefers_the_live_schedule_to_the_early_snapshot() {
    let (order, fixed, mut schedules) = sample_order();
    schedules.push(plain_schedule("Update", vec!["live"]));
    let mut update = UpdateSchedule::new("Update".to_string());
    collect_update_schedule(&mut update, &vec![plain_schedule("Update", vec!["early"])]);

    let mut state = TrackedData::new();
    let mut events = Vec::new();
    state.track_schedules(&mut events, &update, &order, &fixed, &schedules);
    let captured = state.captured_schedules().unwrap();
    assert_eq!(captured[4], plain_info("Update", vec!["live"]));
    assert_eq!(captured.len(), 6);
}

#[test]
fn capture_waits_for_the_early_capture() {
    let (order, fixed, schedules) = sample_order();
    let mut update = UpdateSchedule::new("Update".to_string());
    let mut state = TrackedData::new();
    let mut events = Vec::new();

    state.track_schedules(&mut events, &update, &order, &fixed, &schedules);
    assert_eq!(events, vec![]);
    assert!(state.captured_schedules().is_none());

    collect_update_schedule(&mut update, &schedules);
    state.track_schedules(&mut events, &update, &order, &fixed, &schedules);
    assert_eq!(events.len(), 1);
    assert_eq!(state.captured_schedules().unwrap().len(), 6);
    assert_eq!(state.captured_schedules().unwrap()[4], ScheduleInfo::default());
}

#[test]
fn capture_is_made_once() {
    let (order, fixed, schedules) = sample_order();
    let mut update = UpdateSchedule::new("Update".to_string());
    collect_update_schedule(&mut update, &schedules);
    let mut state = TrackedData::new();
    let mut events = Vec::new();
    state.track_schedules(&mut events, &update, &order, &fixed, &schedules);
    assert_eq!(events.len(), 1);
    let first: Vec<ScheduleInfo> = state.captured_schedules().unwrap().clone();

    let other = vec![plain_schedule("First", vec!["changed"])];
    let empty = ClonedMainScheduleOrder { startup_labels: vec![], labels: vec![direct("First")] };
    for _ in 0..3 {
        state.track_schedules(&mut events, &update, &empty, &fixed, &other);
    }
    assert_eq!(events, vec![InspectorEvent::Schedules { schedules: first.clone() }]);
    assert_eq!(state.captured_schedules(), Some(&first));
}

#[test]
fn capture_and_entity_tracking_leave_each_other_alone() {
    let (order, fixed, schedules) = sample_order();
    let mut update = UpdateSchedule::new("Update".to_string());
    collect_update_schedule(&mut update, &schedules);
    let mut state = TrackedData::new();
    let mut events = Vec::new();
    let store = LiveStore {
        last_run: 0,
        this_run: 1,
        entities: vec![LiveEntity { id: 4, components: vec![] }],
    };
    state.track_entities(&mut events, &store, &ZeroSizedTypes::new());
    state.track_schedules(&mut events, &update, &order, &fixed, &schedules);
    assert!(state.is_tracked(4));
    let captured: Vec<ScheduleInfo> = state.captured_schedules().unwrap().clone();
    state.track_entities(
        &mut events,
        &LiveStore { last_run: 1, this_run: 2, entities: vec![] },
        &ZeroSizedTypes::new(),
    );
    assert!(!state.is_tracked(4));
    assert_eq!(state.captured_schedules(), Some(&captured));
    assert_eq!(events.len(), 2);
}

#[test]
fn nested_loop_marker_in_the_startup_order_is_expanded_too() {
    let (_, fixed, schedules) = sample_order();
    let order = ClonedMainScheduleOrder {
        startup_labels: vec![ScheduleRef::NestedSubLoop],
        labels: vec![ScheduleRef::NestedSubLoop, direct("Nowhere")],
    };
    let mut update = UpdateSchedule::new("Update".to_string());
    collect_update_schedule(&mut update, &schedules);
    let mut state = TrackedData::new();
    let mut events = Vec::new();
    state.track_schedules(&mut events, &update, &order, &fixed, &schedules);
    let names: Vec<&str> =
        state.captured_schedules().unwrap().iter().map(|info| info.name.as_str()).collect();
    assert_eq!(names, vec!["FixedFirst", "FixedUpdate", "FixedFirst", "FixedUpdate"]);
}

#[test]
fn labels_without_a_schedule_are_listed() {
    let (order, fixed, schedules) = sample_order();
    let update = UpdateSchedule::new("Update".to_string());
    assert_eq!(
        unresolved_labels(&update, &order, &fixed, &schedules),
        vec!["FixedGone".to_string(), "Missing".to_string()]
    );

    let other = UpdateSchedule::new("Missing".to_string());
    assert_eq!(
        unresolved_labels(&other, &order, &fixed, &schedules),
        vec!["FixedGone".to_string(), "Update".to_string()]
    );
    assert_eq!(
        unresolved_labels(&other, &order, &fixed, &vec![]),
        vec!["Startup", "First", "FixedFirst", "FixedGone", "FixedUpdate", "Update", "Last"]
    );
}

#[test]
fn every_label_is_captured_or_listed() {
    let (order, fixed, schedules) = sample_order();
    let mut update = UpdateSchedule::new("Update".to_string());
    collect_update_schedule(&mut update, &schedules);
    let mut state = TrackedData::new();
    let mut events = Vec::new();
    state.track_schedules(&mut events, &update, &order, &fixed, &schedules);
    let captured = state.captured_schedules().unwrap().len();
    let passed = unresolved_labels(&update, &order, &fixed, &schedules).len();
    let direct = order.startup_labels.len() + order.labels.len() - 1;
    assert_eq!(captured + passed, direct + fixed.labels.len());
}
