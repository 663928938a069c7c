//! What holds of schedule snapshots and of their capture on every input.

use crate::capture::entry_snapshots;
use crate::capture::entry_unresolved;
use crate::capture::sub_loop_snapshots;
use crate::capture::sub_loop_unresolved;
use crate::capture::tracked_capture;
use crate::capture::ClonedMainScheduleOrder;
use crate::capture::FixedMainScheduleOrder;
use crate::capture::ScheduleRefView;
use crate::capture::UpdateSchedule;
use crate::event::InspectorEventView;
use crate::graph::graph_edges;
use crate::graph::graph_neighbors;
use crate::graph::graph_nodes;
use crate::graph::is_implicit;
use crate::graph::linked_nodes;
use crate::graph::visible_edges;
use crate::graph::visible_nodes;
use crate::graph::EdgeSide;
use crate::graph::NodeId;
use crate::schedule::implicit_sets;
use crate::schedule::named_sets;
use crate::schedule::schedule_snapshot;
use crate::schedule::Schedule;
use crate::schedule::ScheduleInfoView;
use crate::schedule::SetInfoView;
use crate::schedule::SystemSetNode;
use crate::state::TrackedView;
use petgraph::Directed;
use petgraph::graphmap::GraphMap;
use std::hash::RandomState;
use vstd::prelude::*;

verus! {

/// Whether none of `nodes` is an implicit system set.
pub open spec fn nodes_are_visible(nodes: Seq<NodeId>, implicit: Set<usize>) -> bool {
    forall|i: int| 0 <= i < nodes.len() ==> !is_implicit(implicit, #[trigger] nodes[i])
}

/// Whether none of `nodes`, and none of their neighbours, is an implicit
/// system set.
pub open spec fn links_are_visible(
    nodes: Seq<(NodeId, Seq<NodeId>, Seq<NodeId>)>,
    implicit: Set<usize>,
) -> bool {
    forall|i: int|
        0 <= i < nodes.len() ==> {
            &&& !is_implicit(implicit, (#[trigger] nodes[i]).0)
            &&& nodes_are_visible(nodes[i].1, implicit)
            &&& nodes_are_visible(nodes[i].2, implicit)
        }
}

/// Whether no edge of `edges` starts or ends at an implicit system set.
pub open spec fn edges_are_visible(edges: Seq<(NodeId, NodeId)>, implicit: Set<usize>) -> bool {
    forall|i: int|
        0 <= i < edges.len() ==> !is_implicit(implicit, (#[trigger] edges[i]).0) && !is_implicit(
            implicit,
            edges[i].1,
        )
}

/// Whether every set of `listed` is one of `sets` that is not implicit.
pub open spec fn sets_are_named(listed: Seq<SetInfoView>, sets: Seq<SystemSetNode>) -> bool {
    forall|i: int|
        0 <= i < listed.len() ==> exists|k: int|
            0 <= k < sets.len() && !(#[trigger] sets[k]).system_type && sets[k].id == (
            #[trigger] listed[i]).id && sets[k].name@ == listed[i].name
}

proof fn lemma_visible_nodes(nodes: Seq<NodeId>, implicit: Set<usize>)
    ensures
        nodes_are_visible(visible_nodes(nodes, implicit), implicit),
    decreases nodes.len(),
{
    if nodes.len() > 0 {
        lemma_visible_nodes(nodes.drop_last(), implicit);
    }
}

proof fn lemma_visible_edges(edges: Seq<(NodeId, NodeId)>, implicit: Set<usize>)
    ensures
        edges_are_visible(visible_edges(edges, implicit), implicit),
    decreases edges.len(),
{
    if edges.len() > 0 {
        lemma_visible_edges(edges.drop_last(), implicit);
    }
}

proof fn lemma_linked_nodes(
    graph: GraphMap<NodeId, (), Directed, RandomState>,
    order: Seq<NodeId>,
    implicit: Set<usize>,
)
    ensures
        links_are_visible(linked_nodes(graph, order, implicit), implicit),
    decreases order.len(),
{
    if order.len() > 0 {
        lemma_linked_nodes(graph, order.drop_last(), implicit);
        let node = order.last();
        lemma_visible_nodes(graph_neighbors(graph, node, EdgeSide::Outgoing), implicit);
        lemma_visible_nodes(graph_neighbors(graph, node, EdgeSide::Incoming), implicit);
    }
}

proof fn lemma_named_sets(sets: Seq<SystemSetNode>)
    ensures
        sets_are_named(named_sets(sets), sets),
    decreases sets.len(),
{
    if sets.len() > 0 {
        let front = sets.drop_last();
        lemma_named_sets(front);
        let listed = named_sets(sets);
        let before = named_sets(front);
        assert forall|i: int| 0 <= i < listed.len() implies exists|k: int|
            0 <= k < sets.len() && !(#[trigger] sets[k]).system_type && sets[k].id == (
            #[trigger] listed[i]).id && sets[k].name@ == listed[i].name by {
            if i < before.len() {
                assert(listed[i] == before[i]);
                let k = choose|k: int|
                    0 <= k < front.len() && !(#[trigger] front[k]).system_type && front[k].id
                        == before[i].id && front[k].name@ == before[i].name;
                assert(sets[k] == front[k]);
            } else {
                let k = sets.len() - 1;
                assert(sets[k] == sets.last());
            }
        }
    }
}

/// Graph filtering: in the snapshot of any schedule, no node of the hierarchy
/// or of the dependency graph is an implicit system set, none has one among
/// its neighbours, no edge starts or ends at one, and every listed set is a
/// set of the schedule that is not implicit.
pub proof fn lemma_snapshot_hides_implicit_sets(schedule: Schedule)
    ensures
        links_are_visible(
            schedule_snapshot(schedule).hierarchy_nodes,
            implicit_sets(schedule.system_sets@),
        ),
        edges_are_visible(
            schedule_snapshot(schedule).hierarchy_edges,
            implicit_sets(schedule.system_sets@),
        ),
        links_are_visible(
            schedule_snapshot(schedule).dependency_nodes,
            implicit_sets(schedule.system_sets@),
        ),
        edges_are_visible(
            schedule_snapshot(schedule).dependency_edges,
            implicit_sets(schedule.system_sets@),
        ),
        sets_are_named(schedule_snapshot(schedule).sets, schedule.system_sets@),
{
    let implicit = implicit_sets(schedule.system_sets@);
    lemma_linked_nodes(schedule.hierarchy.graph, schedule.hierarchy.topsort@, implicit);
    lemma_visible_edges(graph_edges(schedule.hierarchy.graph), implicit);
    lemma_linked_nodes(
        schedule.dependency.graph,
        graph_nodes(schedule.dependency.graph),
        implicit,
    );
    lemma_visible_edges(graph_edges(schedule.dependency.graph), implicit);
    lemma_named_sets(schedule.system_sets@);
}

/// Snapshot immutability: once the schedules are captured, by this call or by
/// an earlier one, every further call for the capture emits nothing and leaves
/// the tracking state, the kept snapshots included, as it is, whatever the
/// scheduler holds by then.
pub proof fn lemma_capture_is_final(
    state: TrackedView,
    update: UpdateSchedule,
    order: ClonedMainScheduleOrder,
    fixed: FixedMainScheduleOrder,
    schedules: Seq<Schedule>,
    later_update: UpdateSchedule,
    later_order: ClonedMainScheduleOrder,
    later_fixed: FixedMainScheduleOrder,
    later_schedules: Seq<Schedule>,
)
    requires
        update.initialized || state.schedules is Some,
    ensures
        tracked_capture(state, update, order, fixed, schedules).0.schedules is Some,
        tracked_capture(
            tracked_capture(state, update, order, fixed, schedules).0,
            later_update,
            later_order,
            later_fixed,
            later_schedules,
        ) == (
            tracked_capture(state, update, order, fixed, schedules).0,
            Seq::<InspectorEventView>::empty(),
        ),
{
}

proof fn lemma_sub_loop_accounts(schedules: Seq<Schedule>, labels: Seq<Seq<char>>)
    ensures
        sub_loop_snapshots(schedules, labels).len() + sub_loop_unresolved(schedules, labels).len()
            == labels.len(),
    decreases labels.len(),
{
    if labels.len() > 0 {
        lemma_sub_loop_accounts(schedules, labels.drop_last());
    }
}

/// No label of the order is lost without a trace: a label yields one
/// snapshot or is listed as passed over, never both; and of the labels of
/// the nested loop each yields one snapshot or is listed.
pub proof fn lemma_every_label_is_accounted_for(
    schedules: Seq<Schedule>,
    fixed: Seq<Seq<char>>,
    default_label: Seq<char>,
    fallback: ScheduleInfoView,
    entry: ScheduleRefView,
)
    ensures
        entry_snapshots(schedules, fixed, default_label, fallback, entry).len() + entry_unresolved(
            schedules,
            fixed,
            default_label,
            entry,
        ).len() == (match entry {
            ScheduleRefView::Direct(_) => 1,
            ScheduleRefView::NestedSubLoop => fixed.len(),
        }),
{
    lemma_sub_loop_accounts(schedules, fixed);
}

} // verus!
