//! Snapshots of a schedule: its systems, its named system sets, and its
//! hierarchy and dependency graphs, with implicit system sets left out.

use crate::graph::edges_of;
use crate::graph::filter_edges;
use crate::graph::graph_edges;
use crate::graph::graph_nodes;
use crate::graph::link_nodes;
use crate::graph::linked_nodes;
use crate::graph::node_views;
use crate::graph::nodes_of;
use crate::graph::visible_edges;
use crate::graph::NodeId;
use petgraph::Directed;
use petgraph::graphmap::GraphMap;
use std::collections::HashSet;
use std::hash::RandomState;
use vstd::prelude::*;

verus! {

/// A system of a schedule: its node and its display name.
#[derive(Debug, PartialEq, Eq)]
pub struct SystemInfo {
    pub id: NodeId,
    pub name: String,
}

/// What a [`SystemInfo`] stands for.
pub struct SystemInfoView {
    pub id: NodeId,
    pub name: Seq<char>,
}

impl View for SystemInfo {
    type V = SystemInfoView;

    open spec fn view(&self) -> SystemInfoView {
        SystemInfoView { id: self.id, name: self.name@ }
    }
}

impl Clone for SystemInfo {
    fn clone(&self) -> (copy: Self)
        ensures
            copy@ == self@,
    {
        SystemInfo { id: self.id, name: self.name.clone() }
    }
}

/// A named system set of a schedule: its node and its display name.
#[derive(Debug, PartialEq, Eq)]
pub struct SetInfo {
    pub id: NodeId,
    pub name: String,
}

/// What a [`SetInfo`] stands for.
pub struct SetInfoView {
    pub id: NodeId,
    pub name: Seq<char>,
}

impl View for SetInfo {
    type V = SetInfoView;

    open spec fn view(&self) -> SetInfoView {
        SetInfoView { id: self.id, name: self.name@ }
    }
}

impl Clone for SetInfo {
    fn clone(&self) -> (copy: Self)
        ensures
            copy@ == self@,
    {
        SetInfo { id: self.id, name: self.name.clone() }
    }
}

/// The views of a list of systems.
pub open spec fn system_views(systems: Seq<SystemInfo>) -> Seq<SystemInfoView> {
    systems.map_values(|system: SystemInfo| system@)
}

/// The views of a list of sets.
pub open spec fn set_views(sets: Seq<SetInfo>) -> Seq<SetInfoView> {
    sets.map_values(|set: SetInfo| set@)
}

/// The structure of one schedule, ready for transport.
///
/// A node of either graph is its identifier, then its neighbours along
/// outgoing edges, then its neighbours along incoming edges. An edge of the
/// hierarchy graph runs from a set to a member of it; an edge of the
/// dependency graph runs from what must run first to what must run after.
#[derive(Debug, PartialEq, Eq)]
pub struct ScheduleInfo {
    pub name: String,
    pub systems: Vec<SystemInfo>,
    pub sets: Vec<SetInfo>,
    pub hierarchy_nodes: Vec<(NodeId, Vec<NodeId>, Vec<NodeId>)>,
    pub hierarchy_edges: Vec<(NodeId, NodeId)>,
    pub dependency_nodes: Vec<(NodeId, Vec<NodeId>, Vec<NodeId>)>,
    pub dependency_edges: Vec<(NodeId, NodeId)>,
}

/// What a [`ScheduleInfo`] stands for.
pub struct ScheduleInfoView {
    pub name: Seq<char>,
    pub systems: Seq<SystemInfoView>,
    pub sets: Seq<SetInfoView>,
    pub hierarchy_nodes: Seq<(NodeId, Seq<NodeId>, Seq<NodeId>)>,
    pub hierarchy_edges: Seq<(NodeId, NodeId)>,
    pub dependency_nodes: Seq<(NodeId, Seq<NodeId>, Seq<NodeId>)>,
    pub dependency_edges: Seq<(NodeId, NodeId)>,
}

impl View for ScheduleInfo {
    type V = ScheduleInfoView;

    open spec fn view(&self) -> ScheduleInfoView {
        ScheduleInfoView {
            name: self.name@,
            systems: system_views(self.systems@),
            sets: set_views(self.sets@),
            hierarchy_nodes: node_views(self.hierarchy_nodes@),
            hierarchy_edges: self.hierarchy_edges@,
            dependency_nodes: node_views(self.dependency_nodes@),
            dependency_edges: self.dependency_edges@,
        }
    }
}

impl ScheduleInfoView {
    /// The snapshot of nothing: no name, no systems, no sets, empty graphs.
    pub open spec fn empty() -> ScheduleInfoView {
        ScheduleInfoView {
            name: Seq::empty(),
            systems: Seq::empty(),
            sets: Seq::empty(),
            hierarchy_nodes: Seq::empty(),
            hierarchy_edges: Seq::empty(),
            dependency_nodes: Seq::empty(),
            dependency_edges: Seq::empty(),
        }
    }
}

impl Default for ScheduleInfo {
    fn default() -> (info: Self)
        ensures
            info@ == ScheduleInfoView::empty(),
    {
        let info = ScheduleInfo {
            name: String::new(),
            systems: Vec::new(),
            sets: Vec::new(),
            hierarchy_nodes: Vec::new(),
            hierarchy_edges: Vec::new(),
            dependency_nodes: Vec::new(),
            dependency_edges: Vec::new(),
        };
        proof {
            assert(info@.systems == Seq::<SystemInfoView>::empty());
            assert(info@.sets == Seq::<SetInfoView>::empty());
            assert(info@.hierarchy_nodes == Seq::<(NodeId, Seq<NodeId>, Seq<NodeId>)>::empty());
            assert(info@.dependency_nodes == Seq::<(NodeId, Seq<NodeId>, Seq<NodeId>)>::empty());
        }
        info
    }
}

/// Copies a list of systems.
fn copy_systems(systems: &Vec<SystemInfo>) -> (copy: Vec<SystemInfo>)
    ensures
        system_views(copy@) == system_views(systems@),
{
    let mut copy: Vec<SystemInfo> = Vec::new();
    let mut i: usize = 0;
    while i < systems.len()
        invariant
            i <= systems.len(),
            system_views(copy@) == system_views(systems@.take(i as int)),
        decreases systems.len() - i,
    {
        let ghost before = copy@;
        copy.push(systems[i].clone());
        proof {
            assert(systems@.take(i + 1) == systems@.take(i as int).push(systems@[i as int]));
            assert(system_views(copy@) == system_views(before).push(systems@[i as int]@));
            assert(system_views(systems@.take(i + 1)) == system_views(
                systems@.take(i as int),
            ).push(systems@[i as int]@));
        }
        i += 1;
    }
    proof {
        assert(systems@.take(systems.len() as int) == systems@);
    }
    copy
}

/// Copies a list of sets.
fn copy_sets(sets: &Vec<SetInfo>) -> (copy: Vec<SetInfo>)
    ensures
        set_views(copy@) == set_views(sets@),
{
    let mut copy: Vec<SetInfo> = Vec::new();
    let mut i: usize = 0;
    while i < sets.len()
        invariant
            i <= sets.len(),
            set_views(copy@) == set_views(sets@.take(i as int)),
        decreases sets.len() - i,
    {
        let ghost before = copy@;
        copy.push(sets[i].clone());
        proof {
            assert(sets@.take(i + 1) == sets@.take(i as int).push(sets@[i as int]));
            assert(set_views(copy@) == set_views(before).push(sets@[i as int]@));
            assert(set_views(sets@.take(i + 1)) == set_views(sets@.take(i as int)).push(
                sets@[i as int]@,
            ));
        }
        i += 1;
    }
    proof {
        assert(sets@.take(sets.len() as int) == sets@);
    }
    copy
}

/// Copies a list of node identifiers.
fn copy_ids(ids: &Vec<NodeId>) -> (copy: Vec<NodeId>)
    ensures
        copy@ == ids@,
{
    let mut copy: Vec<NodeId> = Vec::new();
    let mut i: usize = 0;
    while i < ids.len()
        invariant
            i <= ids.len(),
            copy@ == ids@.take(i as int),
        decreases ids.len() - i,
    {
        copy.push(ids[i]);
        proof {
            assert(ids@.take(i + 1) == ids@.take(i as int).push(ids@[i as int]));
        }
        i += 1;
    }
    proof {
        assert(ids@.take(ids.len() as int) == ids@);
    }
    copy
}

/// Copies a list of edges.
fn copy_edges(edges: &Vec<(NodeId, NodeId)>) -> (copy: Vec<(NodeId, NodeId)>)
    ensures
        copy@ == edges@,
{
    let mut copy: Vec<(NodeId, NodeId)> = Vec::new();
    let mut i: usize = 0;
    while i < edges.len()
        invariant
            i <= edges.len(),
            copy@ == edges@.take(i as int),
        decreases edges.len() - i,
    {
        copy.push(edges[i]);
        proof {
            assert(edges@.take(i + 1) == edges@.take(i as int).push(edges@[i as int]));
        }
        i += 1;
    }
    proof {
        assert(edges@.take(edges.len() as int) == edges@);
    }
    copy
}

/// Copies a list of snapshot nodes.
fn copy_nodes(nodes: &Vec<(NodeId, Vec<NodeId>, Vec<NodeId>)>) -> (copy: Vec<
    (NodeId, Vec<NodeId>, Vec<NodeId>),
>)
    ensures
        node_views(copy@) == node_views(nodes@),
{
    let mut copy: Vec<(NodeId, Vec<NodeId>, Vec<NodeId>)> = Vec::new();
    let mut i: usize = 0;
    while i < nodes.len()
        invariant
            i <= nodes.len(),
            node_views(copy@) == node_views(nodes@.take(i as int)),
        decreases nodes.len() - i,
    {
        let ghost before = copy@;
        let node = &nodes[i];
        copy.push((node.0, copy_ids(&node.1), copy_ids(&node.2)));
        proof {
            let view = (node.0, node.1@, node.2@);
            assert(nodes@.take(i + 1) == nodes@.take(i as int).push(nodes@[i as int]));
            assert(node_views(copy@) == node_views(before).push(view));
            assert(node_views(nodes@.take(i + 1)) == node_views(nodes@.take(i as int)).push(view));
        }
        i += 1;
    }
    proof {
        assert(nodes@.take(nodes.len() as int) == nodes@);
    }
    copy
}

impl Clone for ScheduleInfo {
    fn clone(&self) -> (copy: Self)
        ensures
            copy@ == self@,
    {
        ScheduleInfo {
            name: self.name.clone(),
            systems: copy_systems(&self.systems),
            sets: copy_sets(&self.sets),
            hierarchy_nodes: copy_nodes(&self.hierarchy_nodes),
            hierarchy_edges: copy_edges(&self.hierarchy_edges),
            dependency_nodes: copy_nodes(&self.dependency_nodes),
            dependency_edges: copy_edges(&self.dependency_edges),
        }
    }
}

/// A system set as the scheduler holds it. `system_type` marks the implicit
/// set that the scheduler creates around a single system.
#[derive(Debug)]
pub struct SystemSetNode {
    pub id: NodeId,
    pub name: String,
    pub system_type: bool,
}

/// A directed acyclic graph of a schedule, with a topological order of its
/// nodes.
#[derive(Debug)]
pub struct Dag {
    pub graph: GraphMap<NodeId, (), Directed, RandomState>,
    pub topsort: Vec<NodeId>,
}

/// A built schedule as the scheduler holds it.
#[derive(Debug)]
pub struct Schedule {
    /// The display form of the schedule's label.
    pub label: String,
    pub systems: Vec<SystemInfo>,
    pub system_sets: Vec<SystemSetNode>,
    /// An edge means that a set contains a system or another set.
    pub hierarchy: Dag,
    /// An edge means that its source must run before its target.
    pub dependency: Dag,
}

/// The indices of the implicit system sets among `sets`.
pub open spec fn implicit_sets(sets: Seq<SystemSetNode>) -> Set<usize> {
    Set::new(
        |index: usize|
            exists|k: int|
                0 <= k < sets.len() && (#[trigger] sets[k]).id == NodeId::SystemSet(index)
                    && sets[k].system_type,
    )
}

/// The sets of `sets` that are not implicit, order kept.
pub open spec fn named_sets(sets: Seq<SystemSetNode>) -> Seq<SetInfoView>
    decreases sets.len(),
{
    if sets.len() == 0 {
        Seq::empty()
    } else {
        let before = named_sets(sets.drop_last());
        if sets.last().system_type {
            before
        } else {
            before.push(SetInfoView { id: sets.last().id, name: sets.last().name@ })
        }
    }
}

/// The snapshot of `schedule`: its systems as they are, its sets and both
/// graphs without the implicit system sets. The hierarchy's nodes come in
/// topological order, the dependency graph's in the graph's own order.
pub open spec fn schedule_snapshot(schedule: Schedule) -> ScheduleInfoView {
    let implicit = implicit_sets(schedule.system_sets@);
    ScheduleInfoView {
        name: schedule.label@,
        systems: system_views(schedule.systems@),
        sets: named_sets(schedule.system_sets@),
        hierarchy_nodes: linked_nodes(
            schedule.hierarchy.graph,
            schedule.hierarchy.topsort@,
            implicit,
        ),
        hierarchy_edges: visible_edges(graph_edges(schedule.hierarchy.graph), implicit),
        dependency_nodes: linked_nodes(
            schedule.dependency.graph,
            graph_nodes(schedule.dependency.graph),
            implicit,
        ),
        dependency_edges: visible_edges(graph_edges(schedule.dependency.graph), implicit),
    }
}

/// Collects the indices of the implicit system sets among `sets`.
pub fn implicit_set_indices(sets: &Vec<SystemSetNode>) -> (implicit: HashSet<usize>)
    ensures
        implicit@ == implicit_sets(sets@),
{
    let mut implicit: HashSet<usize> = HashSet::new();
    let mut i: usize = 0;
    while i < sets.len()
        invariant
            i <= sets.len(),
            implicit@ == implicit_sets(sets@.take(i as int)),
        decreases sets.len() - i,
    {
        let ghost before = implicit@;
        let set = &sets[i];
        if set.system_type {
            match set.id {
                NodeId::SystemSet(index) => {
                    implicit.insert(index);
                },
                NodeId::System(_) => {},
            }
        }
        proof {
            let shorter = sets@.take(i as int);
            let longer = sets@.take(i + 1);
            assert forall|index: usize| implicit@.contains(index) == implicit_sets(
                longer,
            ).contains(index) by {
                if implicit_sets(longer).contains(index) {
                    let k = choose|k: int|
                        0 <= k < longer.len() && (#[trigger] longer[k]).id == NodeId::SystemSet(
                            index,
                        ) && longer[k].system_type;
                    if k < i {
                        assert(shorter[k] == longer[k]);
                    }
                }
                if before.contains(index) {
                    let k = choose|k: int|
                        0 <= k < shorter.len() && (#[trigger] shorter[k]).id == NodeId::SystemSet(
                            index,
                        ) && shorter[k].system_type;
                    assert(longer[k] == shorter[k]);
                }
                if implicit@.contains(index) && !before.contains(index) {
                    assert(longer[i as int] == sets@[i as int]);
                }
            }
            assert(implicit@ =~= implicit_sets(longer));
        }
        i += 1;
    }
    proof {
        assert(sets@.take(sets.len() as int) == sets@);
    }
    implicit
}

/// Lists the sets of `sets` that are not implicit.
pub fn collect_named_sets(sets: &Vec<SystemSetNode>) -> (named: Vec<SetInfo>)
    ensures
        set_views(named@) == named_sets(sets@),
{
    let mut named: Vec<SetInfo> = Vec::new();
    let mut i: usize = 0;
    while i < sets.len()
        invariant
            i <= sets.len(),
            set_views(named@) == named_sets(sets@.take(i as int)),
        decreases sets.len() - i,
    {
        let set = &sets[i];
        proof {
            assert(sets@.take(i + 1).drop_last() == sets@.take(i as int));
        }
        if !set.system_type {
            let ghost before = named@;
            named.push(SetInfo { id: set.id, name: set.name.clone() });
            proof {
                assert(set_views(named@) == set_views(before).push(
                    SetInfoView { id: set.id, name: set.name@ },
                ));
            }
        }
        i += 1;
    }
    proof {
        assert(sets@.take(sets.len() as int) == sets@);
    }
    named
}

impl ScheduleInfo {
    /// Takes the snapshot of a built schedule.
    pub fn from_schedule(schedule: &Schedule) -> (info: Self)
        ensures
            info@ == schedule_snapshot(*schedule),
    {
        let systems = copy_systems(&schedule.systems);
        let implicit = implicit_set_indices(&schedule.system_sets);
        let sets = collect_named_sets(&schedule.system_sets);
        let hierarchy_nodes = link_nodes(
            &schedule.hierarchy.graph,
            &schedule.hierarchy.topsort,
            &implicit,
        );
        let hierarchy_edges = filter_edges(&edges_of(&schedule.hierarchy.graph), &implicit);
        let dependency_nodes = link_nodes(
            &schedule.dependency.graph,
            &nodes_of(&schedule.dependency.graph),
            &implicit,
        );
        let dependency_edges = filter_edges(&edges_of(&schedule.dependency.graph), &implicit);
        ScheduleInfo {
            name: schedule.label.clone(),
            systems,
            sets,
            hierarchy_nodes,
            hierarchy_edges,
            dependency_nodes,
            dependency_edges,
        }
    }
}

} // verus!
