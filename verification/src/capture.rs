//! The one-time capture of the schedules, in their configured order.

use crate::event::event_views;
use crate::event::lemma_event_views_push;
use crate::event::schedule_views;
use crate::event::InspectorEvent;
use crate::event::InspectorEventView;
use crate::schedule::schedule_snapshot;
use crate::schedule::Schedule;
use crate::schedule::ScheduleInfo;
use crate::schedule::ScheduleInfoView;
use crate::state::TrackedData;
use crate::state::TrackedSchedules;
use crate::state::TrackedView;
use vstd::prelude::*;

verus! {

/// An entry of the configured order of schedules.
#[derive(Debug, PartialEq, Eq)]
pub enum ScheduleRef {
    /// The schedule with this label.
    Direct(String),
    /// The marker of the nested fixed-step loop: stands for every schedule of
    /// that loop's own order.
    NestedSubLoop,
}

/// What a [`ScheduleRef`] stands for.
pub enum ScheduleRefView {
    Direct(Seq<char>),
    NestedSubLoop,
}

impl View for ScheduleRef {
    type V = ScheduleRefView;

    open spec fn view(&self) -> ScheduleRefView {
        match *self {
            ScheduleRef::Direct(label) => ScheduleRefView::Direct(label@),
            ScheduleRef::NestedSubLoop => ScheduleRefView::NestedSubLoop,
        }
    }
}

impl Clone for ScheduleRef {
    fn clone(&self) -> (copy: Self)
        ensures
            copy@ == self@,
    {
        match self {
            ScheduleRef::Direct(label) => ScheduleRef::Direct(label.clone()),
            ScheduleRef::NestedSubLoop => ScheduleRef::NestedSubLoop,
        }
    }
}

/// The views of a list of entries.
pub open spec fn ref_views(entries: Seq<ScheduleRef>) -> Seq<ScheduleRefView> {
    entries.map_values(|entry: ScheduleRef| entry@)
}

/// The views of a list of labels.
pub open spec fn label_views(labels: Seq<String>) -> Seq<Seq<char>> {
    labels.map_values(|label: String| label@)
}

/// The configured top-level order, kept by the inspector because the
/// scheduler's own copy is out of reach while the schedules run: first the
/// schedules that run once at startup, then those that run every tick.
#[derive(Debug, PartialEq, Eq)]
pub struct ClonedMainScheduleOrder {
    pub startup_labels: Vec<ScheduleRef>,
    pub labels: Vec<ScheduleRef>,
}

impl ClonedMainScheduleOrder {
    /// All entries of the order: those of startup, then those of every tick.
    pub open spec fn entries(&self) -> Seq<ScheduleRefView> {
        ref_views(self.startup_labels@) + ref_views(self.labels@)
    }
}

/// The order of the schedules of the nested fixed-step loop.
#[derive(Debug, PartialEq, Eq)]
pub struct FixedMainScheduleOrder {
    pub labels: Vec<String>,
}

/// The snapshot of the designated default schedule, taken early: while a
/// schedule runs the scheduler cannot hand it out, so the capture falls back
/// on this one.
#[derive(Debug)]
pub struct UpdateSchedule {
    /// Whether the early capture was made.
    pub initialized: bool,
    /// The label of the designated default schedule.
    pub label: String,
    /// Its snapshot; empty until the early capture finds the schedule.
    pub info: ScheduleInfo,
}

impl UpdateSchedule {
    /// No early capture yet, for the default schedule labelled `label`.
    pub fn new(label: String) -> (update: Self)
        ensures
            !update.initialized,
            update.label == label,
            update.info@ == ScheduleInfoView::empty(),
    {
        UpdateSchedule { initialized: false, label, info: ScheduleInfo::default() }
    }
}

/// The first schedule of `schedules` labelled `label`, if there is one.
pub open spec fn find_schedule(schedules: Seq<Schedule>, label: Seq<char>) -> Option<Schedule>
    decreases schedules.len(),
{
    if schedules.len() == 0 {
        None
    } else if schedules[0].label@ == label {
        Some(schedules[0])
    } else {
        find_schedule(schedules.drop_first(), label)
    }
}

/// The snapshots of the schedules of the nested loop: one for each label of
/// `labels`, in order, that names a schedule.
pub open spec fn sub_loop_snapshots(schedules: Seq<Schedule>, labels: Seq<Seq<char>>) -> Seq<
    ScheduleInfoView,
>
    decreases labels.len(),
{
    if labels.len() == 0 {
        Seq::empty()
    } else {
        let before = sub_loop_snapshots(schedules, labels.drop_last());
        match find_schedule(schedules, labels.last()) {
            Some(schedule) => before.push(schedule_snapshot(schedule)),
            None => before,
        }
    }
}

/// The snapshots that one entry of the order stands for. The marker of the
/// nested loop stands for that loop's schedules. A label stands for the
/// schedule it names; where it names none, the label of the default schedule
/// stands for the early snapshot `fallback`, and any other label for nothing.
pub open spec fn entry_snapshots(
    schedules: Seq<Schedule>,
    fixed: Seq<Seq<char>>,
    default_label: Seq<char>,
    fallback: ScheduleInfoView,
    entry: ScheduleRefView,
) -> Seq<ScheduleInfoView> {
    match entry {
        ScheduleRefView::NestedSubLoop => sub_loop_snapshots(schedules, fixed),
        ScheduleRefView::Direct(label) => match find_schedule(schedules, label) {
            Some(schedule) => seq![schedule_snapshot(schedule)],
            None => if label == default_label {
                seq![fallback]
            } else {
                Seq::empty()
            },
        },
    }
}

/// The snapshots that `entries` stand for, in order.
pub open spec fn ordered_snapshots(
    schedules: Seq<Schedule>,
    fixed: Seq<Seq<char>>,
    default_label: Seq<char>,
    fallback: ScheduleInfoView,
    entries: Seq<ScheduleRefView>,
) -> Seq<ScheduleInfoView>
    decreases entries.len(),
{
    if entries.len() == 0 {
        Seq::empty()
    } else {
        ordered_snapshots(schedules, fixed, default_label, fallback, entries.drop_last())
            + entry_snapshots(schedules, fixed, default_label, fallback, entries.last())
    }
}

/// What a capture yields: the snapshots of the whole configured order.
pub open spec fn captured_snapshots(
    update: UpdateSchedule,
    order: ClonedMainScheduleOrder,
    fixed: FixedMainScheduleOrder,
    schedules: Seq<Schedule>,
) -> Seq<ScheduleInfoView> {
    ordered_snapshots(
        schedules,
        label_views(fixed.labels@),
        update.label@,
        update.info@,
        order.entries(),
    )
}

/// What a call for the capture leads to. Before the early capture, and once
/// the schedules are captured, nothing happens. Else the snapshots are taken,
/// kept, and emitted in one event.
pub open spec fn tracked_capture(
    state: TrackedView,
    update: UpdateSchedule,
    order: ClonedMainScheduleOrder,
    fixed: FixedMainScheduleOrder,
    schedules: Seq<Schedule>,
) -> (TrackedView, Seq<InspectorEventView>) {
    if !update.initialized || state.schedules is Some {
        (state, Seq::empty())
    } else {
        let captured = captured_snapshots(update, order, fixed, schedules);
        (
            TrackedView { order: state.order, known: state.known, schedules: Some(captured) },
            seq![InspectorEventView::Schedules { schedules: captured }],
        )
    }
}

/// The snapshots of two runs of entries, one after the other, are those of
/// the first followed by those of the second.
pub proof fn lemma_ordered_snapshots_add(
    schedules: Seq<Schedule>,
    fixed: Seq<Seq<char>>,
    default_label: Seq<char>,
    fallback: ScheduleInfoView,
    first: Seq<ScheduleRefView>,
    second: Seq<ScheduleRefView>,
)
    ensures
        ordered_snapshots(schedules, fixed, default_label, fallback, first + second)
            == ordered_snapshots(schedules, fixed, default_label, fallback, first)
            + ordered_snapshots(schedules, fixed, default_label, fallback, second),
    decreases second.len(),
{
    if second.len() == 0 {
        assert(first + second == first);
        assert(ordered_snapshots(schedules, fixed, default_label, fallback, first)
            + Seq::<ScheduleInfoView>::empty() == ordered_snapshots(
            schedules,
            fixed,
            default_label,
            fallback,
            first,
        ));
    } else {
        lemma_ordered_snapshots_add(
            schedules,
            fixed,
            default_label,
            fallback,
            first,
            second.drop_last(),
        );
        assert((first + second).drop_last() == first + second.drop_last());
        assert((first + second).last() == second.last());
        let a = ordered_snapshots(schedules, fixed, default_label, fallback, first);
        let b = ordered_snapshots(schedules, fixed, default_label, fallback, second.drop_last());
        let c = entry_snapshots(schedules, fixed, default_label, fallback, second.last());
        assert((a + b) + c == a + (b + c));
    }
}

/// Appending one snapshot appends its view.
pub proof fn lemma_schedule_views_push(infos: Seq<ScheduleInfo>, info: ScheduleInfo)
    ensures
        schedule_views(infos.push(info)) == schedule_views(infos).push(info@),
{
    assert(schedule_views(infos.push(info)) =~= schedule_views(infos).push(info@));
}

/// Looks up the first schedule labelled `label`.
pub fn get_schedule<'a>(schedules: &'a Vec<Schedule>, label: &String) -> (found: Option<
    &'a Schedule,
>)
    ensures
        match found {
            Some(schedule) => find_schedule(schedules@, label@) == Some(*schedule),
            None => find_schedule(schedules@, label@) is None,
        },
{
    let mut i: usize = 0;
    proof {
        assert(schedules@.skip(0) == schedules@);
    }
    while i < schedules.len()
        invariant
            i <= schedules.len(),
            find_schedule(schedules@, label@) == find_schedule(schedules@.skip(i as int), label@),
        decreases schedules.len() - i,
    {
        proof {
            assert(schedules@.skip(i as int)[0] == schedules@[i as int]);
            assert(schedules@.skip(i as int).drop_first() == schedules@.skip(i + 1));
        }
        if schedules[i].label == *label {
            return Some(&schedules[i]);
        }
        i += 1;
    }
    None
}

/// Copies a list of snapshots.
fn copy_schedules(infos: &Vec<ScheduleInfo>) -> (copy: Vec<ScheduleInfo>)
    ensures
        schedule_views(copy@) == schedule_views(infos@),
{
    let mut copy: Vec<ScheduleInfo> = Vec::new();
    let mut i: usize = 0;
    proof {
        assert(schedule_views(copy@) =~= schedule_views(infos@.take(0)));
    }
    while i < infos.len()
        invariant
            i <= infos.len(),
            schedule_views(copy@) == schedule_views(infos@.take(i as int)),
        decreases infos.len() - i,
    {
        let ghost before = copy@;
        let info = infos[i].clone();
        copy.push(info);
        proof {
            lemma_schedule_views_push(before, info);
            assert(infos@.take(i + 1) == infos@.take(i as int).push(infos@[i as int]));
            lemma_schedule_views_push(infos@.take(i as int), infos@[i as int]);
        }
        i += 1;
    }
    proof {
        assert(infos@.take(infos.len() as int) == infos@);
    }
    copy
}

/// Copies a list of entries.
fn copy_refs(entries: &Vec<ScheduleRef>) -> (copy: Vec<ScheduleRef>)
    ensures
        ref_views(copy@) == ref_views(entries@),
{
    let mut copy: Vec<ScheduleRef> = Vec::new();
    let mut i: usize = 0;
    proof {
        assert(ref_views(copy@) =~= ref_views(entries@.take(0)));
    }
    while i < entries.len()
        invariant
            i <= entries.len(),
            ref_views(copy@) == ref_views(entries@.take(i as int)),
        decreases entries.len() - i,
    {
        let ghost before = copy@;
        let entry = entries[i].clone();
        copy.push(entry);
        proof {
            assert(ref_views(before.push(entry)) =~= ref_views(before).push(entry@));
            assert(entries@.take(i + 1) == entries@.take(i as int).push(entries@[i as int]));
            assert(ref_views(entries@.take(i + 1)) =~= ref_views(entries@.take(i as int)).push(
                entries@[i as int]@,
            ));
        }
        i += 1;
    }
    proof {
        assert(entries@.take(entries.len() as int) == entries@);
    }
    copy
}

/// Keeps a copy of the configured top-level order.
pub fn clone_main_schedule_order(
    startup_labels: &Vec<ScheduleRef>,
    labels: &Vec<ScheduleRef>,
) -> (order: ClonedMainScheduleOrder)
    ensures
        ref_views(order.startup_labels@) == ref_views(startup_labels@),
        ref_views(order.labels@) == ref_views(labels@),
{
    ClonedMainScheduleOrder { startup_labels: copy_refs(startup_labels), labels: copy_refs(labels) }
}

/// The early capture of the default schedule. The first call marks the
/// capture as made and, where `schedules` holds the default schedule, keeps
/// its snapshot; later calls change nothing.
pub fn collect_update_schedule(update_schedule: &mut UpdateSchedule, schedules: &Vec<Schedule>)
    ensures
        final(update_schedule).initialized,
        final(update_schedule).label == old(update_schedule).label,
        final(update_schedule).info@ == (if old(update_schedule).initialized {
            old(update_schedule).info@
        } else {
            match find_schedule(schedules@, old(update_schedule).label@) {
                Some(schedule) => schedule_snapshot(schedule),
                None => old(update_schedule).info@,
            }
        }),
{
    if update_schedule.initialized {
        return ;
    }
    update_schedule.initialized = true;
    match get_schedule(schedules, &update_schedule.label) {
        Some(schedule) => {
            update_schedule.info = ScheduleInfo::from_schedule(schedule);
        },
        None => {},
    }
}

/// Appends the snapshots of the nested loop's schedules to `infos`.
fn push_sub_loop(infos: &mut Vec<ScheduleInfo>, schedules: &Vec<Schedule>, labels: &Vec<String>)
    ensures
        schedule_views(final(infos)@) == schedule_views(old(infos)@) + sub_loop_snapshots(
            schedules@,
            label_views(labels@),
        ),
{
    let ghost start = schedule_views(infos@);
    let mut i: usize = 0;
    proof {
        assert(label_views(labels@).take(0) =~= Seq::<Seq<char>>::empty());
        assert(schedule_views(infos@) =~= start + Seq::<ScheduleInfoView>::empty());
    }
    while i < labels.len()
        invariant
            i <= labels.len(),
            schedule_views(infos@) == start + sub_loop_snapshots(
                schedules@,
                label_views(labels@).take(i as int),
            ),
        decreases labels.len() - i,
    {
        proof {
            assert(label_views(labels@).take(i + 1).drop_last() == label_views(labels@).take(
                i as int,
            ));
            assert(label_views(labels@).take(i + 1).last() == labels@[i as int]@);
        }
        match get_schedule(schedules, &labels[i]) {
            Some(schedule) => {
                let ghost before = infos@;
                let info = ScheduleInfo::from_schedule(schedule);
                infos.push(info);
                proof {
                    lemma_schedule_views_push(before, info);
                    let taken = sub_loop_snapshots(schedules@, label_views(labels@).take(i as int));
                    assert((start + taken).push(info@) == start + taken.push(info@));
                }
            },
            None => {},
        }
        i += 1;
    }
    proof {
        assert(label_views(labels@).take(labels.len() as int) == label_views(labels@));
    }
}

/// Appends to `infos` the snapshots that `entries` stand for, in order.
fn push_ordered(
    infos: &mut Vec<ScheduleInfo>,
    entries: &Vec<ScheduleRef>,
    update_schedule: &UpdateSchedule,
    fixed_main_order: &FixedMainScheduleOrder,
    schedules: &Vec<Schedule>,
)
    ensures
        schedule_views(final(infos)@) == schedule_views(old(infos)@) + ordered_snapshots(
            schedules@,
            label_views(fixed_main_order.labels@),
            update_schedule.label@,
            update_schedule.info@,
            ref_views(entries@),
        ),
{
    let ghost start = schedule_views(infos@);
    let ghost fixed = label_views(fixed_main_order.labels@);
    let ghost default_label = update_schedule.label@;
    let ghost fallback = update_schedule.info@;
    let mut i: usize = 0;
    proof {
        assert(ref_views(entries@).take(0) =~= Seq::<ScheduleRefView>::empty());
        assert(schedule_views(infos@) =~= start + Seq::<ScheduleInfoView>::empty());
    }
    while i < entries.len()
        invariant
            i <= entries.len(),
            fixed == label_views(fixed_main_order.labels@),
            default_label == update_schedule.label@,
            fallback == update_schedule.info@,
            schedule_views(infos@) == start + ordered_snapshots(
                schedules@,
                fixed,
                default_label,
                fallback,
                ref_views(entries@).take(i as int),
            ),
        decreases entries.len() - i,
    {
        let ghost taken = ordered_snapshots(
            schedules@,
            fixed,
            default_label,
            fallback,
            ref_views(entries@).take(i as int),
        );
        let ghost added = entry_snapshots(
            schedules@,
            fixed,
            default_label,
            fallback,
            entries@[i as int]@,
        );
        proof {
            assert(ref_views(entries@).take(i + 1).drop_last() == ref_views(entries@).take(
                i as int,
            ));
            assert(ref_views(entries@).take(i + 1).last() == entries@[i as int]@);
        }
        let ghost before = infos@;
        match &entries[i] {
            ScheduleRef::NestedSubLoop => {
                push_sub_loop(infos, schedules, &fixed_main_order.labels);
            },
            ScheduleRef::Direct(label) => {
                match get_schedule(schedules, label) {
                    Some(schedule) => {
                        let info = ScheduleInfo::from_schedule(schedule);
                        infos.push(info);
                        proof {
                            lemma_schedule_views_push(before, info);
                            assert(schedule_views(infos@) =~= schedule_views(before) + added);
                        }
                    },
                    None => {
                        if *label == update_schedule.label {
                            let info = update_schedule.info.clone();
                            infos.push(info);
                            proof {
                                lemma_schedule_views_push(before, info);
                                assert(schedule_views(infos@) =~= schedule_views(before) + added);
                            }
                        } else {
                            proof {
                                assert(schedule_views(infos@) =~= schedule_views(before) + added);
                            }
                        }
                    },
                }
            },
        }
        proof {
            assert((start + taken) + added == start + (taken + added));
        }
        i += 1;
    }
    proof {
        assert(ref_views(entries@).take(entries.len() as int) == ref_views(entries@));
    }
}

/// The labels of `labels` that name no schedule, in order.
pub open spec fn sub_loop_unresolved(schedules: Seq<Schedule>, labels: Seq<Seq<char>>) -> Seq<
    Seq<char>,
>
    decreases labels.len(),
{
    if labels.len() == 0 {
        Seq::empty()
    } else {
        let before = sub_loop_unresolved(schedules, labels.drop_last());
        match find_schedule(schedules, labels.last()) {
            Some(_) => before,
            None => before.push(labels.last()),
        }
    }
}

/// The labels that the capture passes over at one entry of the order: those
/// that name no schedule and are not the label of the default schedule.
pub open spec fn entry_unresolved(
    schedules: Seq<Schedule>,
    fixed: Seq<Seq<char>>,
    default_label: Seq<char>,
    entry: ScheduleRefView,
) -> Seq<Seq<char>> {
    match entry {
        ScheduleRefView::NestedSubLoop => sub_loop_unresolved(schedules, fixed),
        ScheduleRefView::Direct(label) => if find_schedule(schedules, label) is None && label
            != default_label {
            seq![label]
        } else {
            Seq::empty()
        },
    }
}

/// The labels that the capture passes over at `entries`, in order.
pub open spec fn ordered_unresolved(
    schedules: Seq<Schedule>,
    fixed: Seq<Seq<char>>,
    default_label: Seq<char>,
    entries: Seq<ScheduleRefView>,
) -> Seq<Seq<char>>
    decreases entries.len(),
{
    if entries.len() == 0 {
        Seq::empty()
    } else {
        ordered_unresolved(schedules, fixed, default_label, entries.drop_last())
            + entry_unresolved(schedules, fixed, default_label, entries.last())
    }
}

/// The labels of the whole configured order for which a capture yields no
/// snapshot.
pub open spec fn unresolved(
    update: UpdateSchedule,
    order: ClonedMainScheduleOrder,
    fixed: FixedMainScheduleOrder,
    schedules: Seq<Schedule>,
) -> Seq<Seq<char>> {
    ordered_unresolved(schedules, label_views(fixed.labels@), update.label@, order.entries())
}

/// The labels passed over at two runs of entries, one after the other, are
/// those of the first followed by those of the second.
pub proof fn lemma_ordered_unresolved_add(
    schedules: Seq<Schedule>,
    fixed: Seq<Seq<char>>,
    default_label: Seq<char>,
    first: Seq<ScheduleRefView>,
    second: Seq<ScheduleRefView>,
)
    ensures
        ordered_unresolved(schedules, fixed, default_label, first + second) == ordered_unresolved(
            schedules,
            fixed,
            default_label,
            first,
        ) + ordered_unresolved(schedules, fixed, default_label, second),
    decreases second.len(),
{
    let a = ordered_unresolved(schedules, fixed, default_label, first);
    if second.len() == 0 {
        assert(first + second == first);
        assert(a + Seq::<Seq<char>>::empty() == a);
    } else {
        lemma_ordered_unresolved_add(schedules, fixed, default_label, first, second.drop_last());
        assert((first + second).drop_last() == first + second.drop_last());
        assert((first + second).last() == second.last());
        let b = ordered_unresolved(schedules, fixed, default_label, second.drop_last());
        let c = entry_unresolved(schedules, fixed, default_label, second.last());
        assert((a + b) + c == a + (b + c));
    }
}

/// Appending one label appends its view.
pub proof fn lemma_label_views_push(labels: Seq<String>, label: String)
    ensures
        label_views(labels.push(label)) == label_views(labels).push(label@),
{
    assert(label_views(labels.push(label)) =~= label_views(labels).push(label@));
}

/// Appends to `passed` the labels of the nested loop that name no schedule.
fn push_sub_loop_unresolved(
    passed: &mut Vec<String>,
    schedules: &Vec<Schedule>,
    labels: &Vec<String>,
)
    ensures
        label_views(final(passed)@) == label_views(old(passed)@) + sub_loop_unresolved(
            schedules@,
            label_views(labels@),
        ),
{
    let ghost start = label_views(passed@);
    let mut i: usize = 0;
    proof {
        assert(label_views(labels@).take(0) =~= Seq::<Seq<char>>::empty());
        assert(label_views(passed@) =~= start + Seq::<Seq<char>>::empty());
    }
    while i < labels.len()
        invariant
            i <= labels.len(),
            label_views(passed@) == start + sub_loop_unresolved(
                schedules@,
                label_views(labels@).take(i as int),
            ),
        decreases labels.len() - i,
    {
        proof {
            assert(label_views(labels@).take(i + 1).drop_last() == label_views(labels@).take(
                i as int,
            ));
            assert(label_views(labels@).take(i + 1).last() == labels@[i as int]@);
        }
        if get_schedule(schedules, &labels[i]).is_none() {
            let ghost before = passed@;
            let label = labels[i].clone();
            passed.push(label);
            proof {
                lemma_label_views_push(before, label);
                let taken = sub_loop_unresolved(schedules@, label_views(labels@).take(i as int));
                assert((start + taken).push(label@) == start + taken.push(label@));
            }
        }
        i += 1;
    }
    proof {
        assert(label_views(labels@).take(labels.len() as int) == label_views(labels@));
    }
}

/// Appends to `passed` the labels that the capture passes over at `entries`.
fn push_unresolved(
    passed: &mut Vec<String>,
    entries: &Vec<ScheduleRef>,
    update_schedule: &UpdateSchedule,
    fixed_main_order: &FixedMainScheduleOrder,
    schedules: &Vec<Schedule>,
)
    ensures
        label_views(final(passed)@) == label_views(old(passed)@) + ordered_unresolved(
            schedules@,
            label_views(fixed_main_order.labels@),
            update_schedule.label@,
            ref_views(entries@),
        ),
{
    let ghost start = label_views(passed@);
    let ghost fixed = label_views(fixed_main_order.labels@);
    let ghost default_label = update_schedule.label@;
    let mut i: usize = 0;
    proof {
        assert(ref_views(entries@).take(0) =~= Seq::<ScheduleRefView>::empty());
        assert(label_views(passed@) =~= start + Seq::<Seq<char>>::empty());
    }
    while i < entries.len()
        invariant
            i <= entries.len(),
            fixed == label_views(fixed_main_order.labels@),
            default_label == update_schedule.label@,
            label_views(passed@) == start + ordered_unresolved(
                schedules@,
                fixed,
                default_label,
                ref_views(entries@).take(i as int),
            ),
        decreases entries.len() - i,
    {
        let ghost taken = ordered_unresolved(
            schedules@,
            fixed,
            default_label,
            ref_views(entries@).take(i as int),
        );
        let ghost added = entry_unresolved(schedules@, fixed, default_label, entries@[i as int]@);
        proof {
            assert(ref_views(entries@).take(i + 1).drop_last() == ref_views(entries@).take(
                i as int,
            ));
            assert(ref_views(entries@).take(i + 1).last() == entries@[i as int]@);
        }
        let ghost before = passed@;
        match &entries[i] {
            ScheduleRef::NestedSubLoop => {
                push_sub_loop_unresolved(passed, schedules, &fixed_main_order.labels);
            },
            ScheduleRef::Direct(label) => {
                if get_schedule(schedules, label).is_none() && *label != update_schedule.label {
                    let copy = label.clone();
                    passed.push(copy);
                    proof {
                        lemma_label_views_push(before, copy);
                        assert(label_views(passed@) =~= label_views(before) + added);
                    }
                } else {
                    proof {
                        assert(label_views(passed@) =~= label_views(before) + added);
                    }
                }
            },
        }
        proof {
            assert((start + taken) + added == start + (taken + added));
        }
        i += 1;
    }
    proof {
        assert(ref_views(entries@).take(entries.len() as int) == ref_views(entries@));
    }
}

/// Lists the labels of the configured order for which a capture yields no
/// snapshot, in order, so that the caller can report them. The capture itself
/// passes over them in silence.
pub fn unresolved_labels(
    update_schedule: &UpdateSchedule,
    main_order: &ClonedMainScheduleOrder,
    fixed_main_order: &FixedMainScheduleOrder,
    schedules: &Vec<Schedule>,
) -> (passed: Vec<String>)
    ensures
        label_views(passed@) == unresolved(
            *update_schedule,
            *main_order,
            *fixed_main_order,
            schedules@,
        ),
{
    let mut passed: Vec<String> = Vec::new();
    proof {
        assert(label_views(passed@) =~= Seq::<Seq<char>>::empty());
    }
    push_unresolved(
        &mut passed,
        &main_order.startup_labels,
        update_schedule,
        fixed_main_order,
        schedules,
    );
    push_unresolved(&mut passed, &main_order.labels, update_schedule, fixed_main_order, schedules);
    proof {
        lemma_ordered_unresolved_add(
            schedules@,
            label_views(fixed_main_order.labels@),
            update_schedule.label@,
            ref_views(main_order.startup_labels@),
            ref_views(main_order.labels@),
        );
        let first = ordered_unresolved(
            schedules@,
            label_views(fixed_main_order.labels@),
            update_schedule.label@,
            ref_views(main_order.startup_labels@),
        );
        let second = ordered_unresolved(
            schedules@,
            label_views(fixed_main_order.labels@),
            update_schedule.label@,
            ref_views(main_order.labels@),
        );
        assert(Seq::<Seq<char>>::empty() + first + second == first + second);
    }
    passed
}

impl TrackedData {
    /// Captures the schedules, once. Before the early capture of the default
    /// schedule, and after a capture, the call does nothing. Else it takes the
    /// snapshots of the whole configured order, keeps them, and appends one
    /// event that carries them.
    pub fn track_schedules(
        &mut self,
        events: &mut Vec<InspectorEvent>,
        update_schedule: &UpdateSchedule,
        main_order: &ClonedMainScheduleOrder,
        fixed_main_order: &FixedMainScheduleOrder,
        schedules: &Vec<Schedule>,
    )
        ensures
            old(self).wf() ==> final(self).wf(),
            final(self)@ == tracked_capture(
                old(self)@,
                *update_schedule,
                *main_order,
                *fixed_main_order,
                schedules@,
            ).0,
            event_views(final(events)@) == event_views(old(events)@) + tracked_capture(
                old(self)@,
                *update_schedule,
                *main_order,
                *fixed_main_order,
                schedules@,
            ).1,
    {
        let captured = match self.schedules {
            TrackedSchedules::Uninitialized => false,
            TrackedSchedules::Captured(_) => true,
        };
        if !update_schedule.initialized || captured {
            proof {
                assert(event_views(events@) =~= event_views(events@)
                    + Seq::<InspectorEventView>::empty());
            }
            return ;
        }
        let mut infos: Vec<ScheduleInfo> = Vec::new();
        proof {
            assert(schedule_views(infos@) =~= Seq::<ScheduleInfoView>::empty());
        }
        push_ordered(
            &mut infos,
            &main_order.startup_labels,
            update_schedule,
            fixed_main_order,
            schedules,
        );
        push_ordered(&mut infos, &main_order.labels, update_schedule, fixed_main_order, schedules);
        proof {
            lemma_ordered_snapshots_add(
                schedules@,
                label_views(fixed_main_order.labels@),
                update_schedule.label@,
                update_schedule.info@,
                ref_views(main_order.startup_labels@),
                ref_views(main_order.labels@),
            );
            let first = ordered_snapshots(
                schedules@,
                label_views(fixed_main_order.labels@),
                update_schedule.label@,
                update_schedule.info@,
                ref_views(main_order.startup_labels@),
            );
            let second = ordered_snapshots(
                schedules@,
                label_views(fixed_main_order.labels@),
                update_schedule.label@,
                update_schedule.info@,
                ref_views(main_order.labels@),
            );
            assert(Seq::<ScheduleInfoView>::empty() + first + second == first + second);
        }
        let kept = copy_schedules(&infos);
        self.schedules = TrackedSchedules::Captured(kept);
        let ghost before = events@;
        let event = InspectorEvent::Schedules { schedules: infos };
        events.push(event);
        proof {
            lemma_event_views_push(before, event);
            assert(event_views(events@) =~= event_views(before) + seq![event@]);
        }
    }
}

} // verus!
