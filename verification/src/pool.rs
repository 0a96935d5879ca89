//! The pool of backends and its reconciler: snapshots come in, membership
//! changes go out.
//!
//! The pool always shows one snapshot as a whole. A snapshot is either
//! applied, and then the pool is that snapshot, or it is held back, and then
//! the pool is what it was. Nothing in between is ever visible.

use vstd::prelude::*;
use crate::discovery::{DiscoveryError, DiscoverySnapshot, SnapshotView, identities};
use crate::discovery::{contains_target, copy_targets};
use crate::target::{ConnectionTarget, TargetView};

verus! {

/// One change of the pool's membership, with the number of the snapshot that caused it.
#[derive(Debug, PartialEq, Eq)]
pub enum MembershipEvent {
    Added { target: ConnectionTarget, sequence: u64 },
    Removed { target: ConnectionTarget, sequence: u64 },
}

/// What a [`MembershipEvent`] stands for in contracts.
pub enum EventView {
    Added { target: TargetView, sequence: u64 },
    Removed { target: TargetView, sequence: u64 },
}

impl EventView {
    /// The number of the snapshot that caused the event.
    pub open spec fn sequence(self) -> u64 {
        match self {
            EventView::Added { target, sequence } => sequence,
            EventView::Removed { target, sequence } => sequence,
        }
    }

    /// The backend that the event is about.
    pub open spec fn target(self) -> TargetView {
        match self {
            EventView::Added { target, sequence } => target,
            EventView::Removed { target, sequence } => target,
        }
    }
}

impl View for MembershipEvent {
    type V = EventView;

    open spec fn view(&self) -> EventView {
        match self {
            MembershipEvent::Added { target, sequence } => EventView::Added {
                target: target@,
                sequence: *sequence,
            },
            MembershipEvent::Removed { target, sequence } => EventView::Removed {
                target: target@,
                sequence: *sequence,
            },
        }
    }
}

/// What the events `events` stand for, in their order.
pub open spec fn event_views(events: Seq<MembershipEvent>) -> Seq<EventView> {
    events.map_values(|e: MembershipEvent| e@)
}

/// The members of `from` that `other` lacks, in the order of `from`.
pub open spec fn missing_from(from: Seq<TargetView>, other: Seq<TargetView>) -> Seq<TargetView> {
    from.filter(|t: TargetView| !other.contains(t))
}

/// One `Removed` event for each of `targets`.
pub open spec fn removals(targets: Seq<TargetView>, sequence: u64) -> Seq<EventView> {
    targets.map_values(|t: TargetView| EventView::Removed { target: t, sequence })
}

/// One `Added` event for each of `targets`.
pub open spec fn additions(targets: Seq<TargetView>, sequence: u64) -> Seq<EventView> {
    targets.map_values(|t: TargetView| EventView::Added { target: t, sequence })
}

/// The events that turn the membership `pool` into the snapshot: first a
/// removal for every member that the snapshot lacks, then an addition for
/// every backend of the snapshot that the pool lacks.
pub open spec fn transition(pool: Seq<TargetView>, snapshot: SnapshotView) -> Seq<EventView> {
    removals(missing_from(pool, snapshot.targets), snapshot.sequence) + additions(
        missing_from(snapshot.targets, pool),
        snapshot.sequence,
    )
}

/// The canonical membership: the last snapshot that was applied.
#[derive(Debug)]
pub struct PoolState {
    members: Vec<ConnectionTarget>,
    sequence: u64,
}

/// What a [`PoolState`] stands for in contracts.
pub struct PoolView {
    /// The members, in the order of the snapshot that brought them.
    pub members: Seq<TargetView>,
    /// The number of the last snapshot applied; 0 before the first.
    pub sequence: u64,
}

impl PoolView {
    /// The member set.
    pub open spec fn member_set(self) -> Set<TargetView> {
        self.members.to_set()
    }
}

impl View for PoolState {
    type V = PoolView;

    closed spec fn view(&self) -> PoolView {
        PoolView { members: identities(self.members@), sequence: self.sequence }
    }
}

impl PoolState {
    /// The members, in the order of the snapshot that brought them.
    pub fn members(&self) -> (list: &Vec<ConnectionTarget>)
        ensures
            identities(list@) == self@.members,
    {
        &self.members
    }

    /// The number of the last snapshot applied; 0 before the first.
    pub fn sequence(&self) -> (n: u64)
        ensures
            n == self@.sequence,
    {
        self.sequence
    }

    /// How many members the pool has.
    pub fn len(&self) -> (n: usize)
        ensures
            n == self@.members.len(),
    {
        self.members.len()
    }

    /// Whether the pool has no member.
    pub fn is_empty(&self) -> (empty: bool)
        ensures
            empty == (self@.members.len() == 0),
    {
        self.members.len() == 0
    }

    /// Whether `target` is a member.
    pub fn contains(&self, target: &ConnectionTarget) -> (found: bool)
        ensures
            found == self@.member_set().contains(target@),
    {
        contains_target(&self.members, target)
    }
}

/// What a [`PoolReconciler`] stands for in contracts.
pub struct ReconcilerView {
    pub pool: PoolView,
    /// How many empty snapshots in a row it takes to empty the pool. 0 and 1
    /// both mean that the first one does.
    pub threshold: nat,
    /// How many empty snapshots in a row have been held back.
    pub held: nat,
}

impl ReconcilerView {
    /// What holds of every reconciler.
    pub open spec fn wf(self) -> bool {
        &&& self.pool.members.no_duplicates()
        &&& self.held == 0 || self.held < self.threshold
        &&& self.held > 0 ==> self.pool.members.len() > 0
    }

    /// A reconciler with an empty pool that has seen no snapshot.
    pub open spec fn empty(threshold: nat) -> ReconcilerView {
        ReconcilerView {
            pool: PoolView { members: Seq::empty(), sequence: 0 },
            threshold,
            held: 0,
        }
    }

    /// Whether the snapshot is held back: it is empty, the pool is not, and
    /// with it there are still fewer empty snapshots in a row than it takes.
    pub open spec fn holds_back(self, snapshot: SnapshotView) -> bool {
        &&& snapshot.targets.len() == 0
        &&& self.pool.members.len() > 0
        &&& self.held + 1 < self.threshold
    }

    /// The events that the snapshot causes: none where it is held back.
    pub open spec fn events(self, snapshot: SnapshotView) -> Seq<EventView> {
        if self.holds_back(snapshot) {
            Seq::empty()
        } else {
            transition(self.pool.members, snapshot)
        }
    }

    /// The reconciler after the snapshot: the pool is the snapshot, unless it
    /// was held back, which only counts.
    pub open spec fn step(self, snapshot: SnapshotView) -> ReconcilerView {
        if self.holds_back(snapshot) {
            ReconcilerView { held: self.held + 1, ..self }
        } else {
            ReconcilerView {
                pool: PoolView { members: snapshot.targets, sequence: snapshot.sequence },
                held: 0,
                ..self
            }
        }
    }

    /// The reconciler after the snapshots `snapshots`, one after the other.
    pub open spec fn run(self, snapshots: Seq<SnapshotView>) -> ReconcilerView
        decreases snapshots.len(),
    {
        if snapshots.len() == 0 {
            self
        } else {
            self.run(snapshots.drop_last()).step(snapshots.last())
        }
    }
}

/// Turns successive snapshots into membership events and owns the pool.
#[derive(Debug)]
pub struct PoolReconciler {
    state: PoolState,
    threshold: u32,
    held: u32,
}

impl View for PoolReconciler {
    type V = ReconcilerView;

    closed spec fn view(&self) -> ReconcilerView {
        ReconcilerView {
            pool: self.state@,
            threshold: self.threshold as nat,
            held: self.held as nat,
        }
    }
}

impl PoolReconciler {
    /// What holds of every reconciler that this module hands out.
    pub open spec fn wf(&self) -> bool {
        self@.wf()
    }

    /// A reconciler with an empty pool that empties the pool on the first
    /// empty snapshot.
    pub fn new() -> (reconciler: PoolReconciler)
        ensures
            reconciler.wf(),
            reconciler@ == ReconcilerView::empty(0),
    {
        PoolReconciler::with_debounce(0)
    }

    /// A reconciler with an empty pool that empties the pool only on the
    /// `threshold`-th empty snapshot in a row.
    pub fn with_debounce(threshold: u32) -> (reconciler: PoolReconciler)
        ensures
            reconciler.wf(),
            reconciler@ == ReconcilerView::empty(threshold as nat),
    {
        let reconciler = PoolReconciler {
            state: PoolState { members: Vec::new(), sequence: 0 },
            threshold,
            held: 0,
        };
        assert(reconciler@.pool.members =~= Seq::<TargetView>::empty());
        reconciler
    }

    /// The pool.
    pub fn state(&self) -> (state: &PoolState)
        ensures
            state@ == self@.pool,
    {
        &self.state
    }

    /// Takes one snapshot: applies it as a whole or holds it back, and
    /// answers with the events that it caused, every removal before every
    /// addition, each with the snapshot's number.
    pub fn reconcile(&mut self, snapshot: &DiscoverySnapshot) -> (events: Vec<MembershipEvent>)
        requires
            old(self).wf(),
            snapshot.wf(),
        ensures
            final(self).wf(),
            final(self)@ == old(self)@.step(snapshot@),
            event_views(events@) == old(self)@.events(snapshot@),
    {
        if snapshot.is_empty() && self.state.members.len() > 0 && self.threshold >= 2 && self.held
            < self.threshold - 1 {
            self.held = self.held + 1;
            let events: Vec<MembershipEvent> = Vec::new();
            assert(event_views(events@) =~= Seq::<EventView>::empty());
            return events;
        }
        let sequence = snapshot.sequence();
        let ghost pool = self@.pool.members;
        let ghost fresh = snapshot@.targets;
        let mut events: Vec<MembershipEvent> = Vec::new();
        let mut i: usize = 0;
        while i < self.state.members.len()
            invariant
                i <= self.state.members.len(),
                pool == identities(self.state.members@),
                fresh == snapshot@.targets,
                sequence == snapshot@.sequence,
                event_views(events@) == removals(
                    missing_from(pool.take(i as int), fresh),
                    sequence,
                ),
            decreases self.state.members.len() - i,
        {
            let member = &self.state.members[i];
            proof {
                lemma_missing_from_step(pool, fresh, i as int);
            }
            if !snapshot.contains(member) {
                let ghost before = event_views(events@);
                events.push(MembershipEvent::Removed { target: member.clone(), sequence });
                assert(event_views(events@) =~= before.push(
                    EventView::Removed { target: pool[i as int], sequence },
                ));
                assert(event_views(events@) =~= removals(
                    missing_from(pool.take(i as int + 1), fresh),
                    sequence,
                ));
            }
            i += 1;
        }
        assert(pool.take(pool.len() as int) =~= pool);
        let ghost removed = event_views(events@);
        let found = snapshot.targets();
        let mut j: usize = 0;
        while j < found.len()
            invariant
                j <= found.len(),
                pool == identities(self.state.members@),
                fresh == identities(found@),
                event_views(events@) == removed + additions(
                    missing_from(fresh.take(j as int), pool),
                    sequence,
                ),
            decreases found.len() - j,
        {
            let target = &found[j];
            proof {
                lemma_missing_from_step(fresh, pool, j as int);
            }
            if !contains_target(&self.state.members, target) {
                let ghost before = event_views(events@);
                events.push(MembershipEvent::Added { target: target.clone(), sequence });
                assert(event_views(events@) =~= before.push(
                    EventView::Added { target: fresh[j as int], sequence },
                ));
                assert(event_views(events@) =~= removed + additions(
                    missing_from(fresh.take(j as int + 1), pool),
                    sequence,
                ));
            }
            j += 1;
        }
        assert(fresh.take(fresh.len() as int) =~= fresh);
        self.state = PoolState { members: copy_targets(found), sequence };
        self.held = 0;
        events
    }

    /// Takes the outcome of one discovery round. A snapshot is reconciled. A
    /// failed round changes nothing and causes no event: it never counts as
    /// an empty snapshot.
    pub fn reconcile_round(&mut self, round: &Result<DiscoverySnapshot, DiscoveryError>) -> (events:
        Vec<MembershipEvent>)
        requires
            old(self).wf(),
            round matches Ok(snapshot) ==> snapshot.wf(),
        ensures
            final(self).wf(),
            match round {
                Ok(snapshot) => {
                    &&& final(self)@ == old(self)@.step(snapshot@)
                    &&& event_views(events@) == old(self)@.events(snapshot@)
                },
                Err(_) => {
                    &&& final(self)@ == old(self)@
                    &&& events@.len() == 0
                },
            },
    {
        match round {
            Ok(snapshot) => self.reconcile(snapshot),
            Err(_) => Vec::new(),
        }
    }
}

/// Looking at one more member of `from` adds it to the missing ones exactly
/// where `other` lacks it.
proof fn lemma_missing_from_step(from: Seq<TargetView>, other: Seq<TargetView>, i: int)
    requires
        0 <= i < from.len(),
    ensures
        missing_from(from.take(i + 1), other) == if other.contains(from[i]) {
            missing_from(from.take(i), other)
        } else {
            missing_from(from.take(i), other).push(from[i])
        },
{
    reveal(Seq::filter);
    assert(from.take(i + 1).drop_last() =~= from.take(i));
}

/// Nothing is missing from a sequence that it holds itself.
proof fn lemma_nothing_missing_from_itself(s: Seq<TargetView>)
    ensures
        missing_from(s, s) == Seq::<TargetView>::empty(),
    decreases s.len(),
{
    let lacking = |t: TargetView| !s.contains(t);
    reveal(Seq::filter);
    let kept = s.filter(lacking);
    if kept.len() > 0 {
        s.lemma_filter_pred(lacking, 0);
        s.lemma_filter_contains_rev(lacking, kept[0]);
    }
    assert(kept =~= Seq::<TargetView>::empty());
}

/// After a snapshot that was not held back, the pool is that snapshot: the
/// same members, the same number.
pub proof fn law_pool_is_last_snapshot(reconciler: ReconcilerView, snapshot: SnapshotView)
    requires
        reconciler.wf(),
        snapshot.wf(),
        !reconciler.holds_back(snapshot),
    ensures
        reconciler.step(snapshot).pool.members == snapshot.targets,
        reconciler.step(snapshot).pool.member_set() == snapshot.members(),
        reconciler.step(snapshot).pool.sequence == snapshot.sequence,
        reconciler.step(snapshot).wf(),
{
}

/// Every step keeps a reconciler well formed.
pub proof fn law_step_keeps_wf(reconciler: ReconcilerView, snapshot: SnapshotView)
    requires
        reconciler.wf(),
        snapshot.wf(),
    ensures
        reconciler.step(snapshot).wf(),
{
}

/// After any number of snapshots, the last of which was not held back, the
/// pool is the last snapshot.
pub proof fn law_pool_after_run(reconciler: ReconcilerView, snapshots: Seq<SnapshotView>)
    requires
        reconciler.wf(),
        snapshots.len() > 0,
        forall|i: int| 0 <= i < snapshots.len() ==> (#[trigger] snapshots[i]).wf(),
        !reconciler.run(snapshots.drop_last()).holds_back(snapshots.last()),
    ensures
        reconciler.run(snapshots).pool.members == snapshots.last().targets,
        reconciler.run(snapshots).pool.member_set() == snapshots.last().members(),
        reconciler.run(snapshots).pool.sequence == snapshots.last().sequence,
{
}

/// A reconciler that holds nothing back shows, after any snapshots, the last one.
pub proof fn law_pool_after_run_without_debounce(
    reconciler: ReconcilerView,
    snapshots: Seq<SnapshotView>,
)
    requires
        reconciler.wf(),
        reconciler.threshold <= 1,
        snapshots.len() > 0,
        forall|i: int| 0 <= i < snapshots.len() ==> (#[trigger] snapshots[i]).wf(),
    ensures
        reconciler.run(snapshots).pool.members == snapshots.last().targets,
        reconciler.run(snapshots).pool.member_set() == snapshots.last().members(),
{
    lemma_run_keeps_threshold(reconciler, snapshots.drop_last());
}

/// No step changes how many empty snapshots it takes.
proof fn lemma_run_keeps_threshold(reconciler: ReconcilerView, snapshots: Seq<SnapshotView>)
    ensures
        reconciler.run(snapshots).threshold == reconciler.threshold,
    decreases snapshots.len(),
{
    if snapshots.len() > 0 {
        lemma_run_keeps_threshold(reconciler, snapshots.drop_last());
    }
}

/// The same snapshot once more causes no event, unless the first time it
/// was held back and the second time it is not.
pub proof fn law_replay_is_silent(reconciler: ReconcilerView, snapshot: SnapshotView)
    requires
        reconciler.wf(),
        snapshot.wf(),
        !(reconciler.holds_back(snapshot) && !reconciler.step(snapshot).holds_back(snapshot)),
    ensures
        reconciler.step(snapshot).events(snapshot) == Seq::<EventView>::empty(),
        reconciler.step(snapshot).step(snapshot).pool == reconciler.step(snapshot).pool,
{
    if !reconciler.holds_back(snapshot) {
        lemma_nothing_missing_from_itself(snapshot.targets);
        assert(transition(snapshot.targets, snapshot) =~= Seq::<EventView>::empty());
    }
}

/// In the events of one snapshot no removal follows an addition, and every
/// event carries the snapshot's number.
pub proof fn law_removals_precede_additions(reconciler: ReconcilerView, snapshot: SnapshotView)
    ensures
        forall|i: int, j: int|
            0 <= i < j < reconciler.events(snapshot).len() && reconciler.events(snapshot)[i]
                is Added ==> reconciler.events(snapshot)[j] is Added,
        forall|i: int|
            0 <= i < reconciler.events(snapshot).len() ==> (#[trigger] reconciler.events(
                snapshot,
            )[i]).sequence() == snapshot.sequence,
{
}

/// The events of a snapshot that is not held back say exactly what changed:
/// a backend is removed where the pool had it and the snapshot lacks it, and
/// added where the snapshot has it and the pool lacked it.
pub proof fn law_events_are_the_difference(
    reconciler: ReconcilerView,
    snapshot: SnapshotView,
    target: TargetView,
)
    requires
        !reconciler.holds_back(snapshot),
    ensures
        reconciler.events(snapshot).contains(
            EventView::Removed { target, sequence: snapshot.sequence },
        ) <==> reconciler.pool.members.contains(target) && !snapshot.targets.contains(target),
        reconciler.events(snapshot).contains(
            EventView::Added { target, sequence: snapshot.sequence },
        ) <==> snapshot.targets.contains(target) && !reconciler.pool.members.contains(target),
{
    let pool = reconciler.pool.members;
    let fresh = snapshot.targets;
    let gone = missing_from(pool, fresh);
    let come = missing_from(fresh, pool);
    let events = reconciler.events(snapshot);
    let removed = EventView::Removed { target, sequence: snapshot.sequence };
    let added = EventView::Added { target, sequence: snapshot.sequence };
    let lacks_fresh = |t: TargetView| !fresh.contains(t);
    let lacks_pool = |t: TargetView| !pool.contains(t);
    if events.contains(removed) {
        let i = choose|i: int| 0 <= i < events.len() && events[i] == removed;
        assert(i < gone.len());
        assert(gone[i] == target);
        pool.lemma_filter_pred(lacks_fresh, i);
        pool.lemma_filter_contains_rev(lacks_fresh, gone[i]);
    }
    if pool.contains(target) && !fresh.contains(target) {
        let k = choose|k: int| 0 <= k < pool.len() && pool[k] == target;
        pool.lemma_filter_contains(lacks_fresh, k);
        let i = choose|i: int| 0 <= i < gone.len() && gone[i] == target;
        assert(events[i] == removed);
    }
    if events.contains(added) {
        let i = choose|i: int| 0 <= i < events.len() && events[i] == added;
        assert(i >= gone.len());
        assert(come[i - gone.len()] == target);
        fresh.lemma_filter_pred(lacks_pool, i - gone.len());
        fresh.lemma_filter_contains_rev(lacks_pool, come[i - gone.len()]);
    }
    if fresh.contains(target) && !pool.contains(target) {
        let k = choose|k: int| 0 <= k < fresh.len() && fresh[k] == target;
        fresh.lemma_filter_contains(lacks_pool, k);
        let i = choose|i: int| 0 <= i < come.len() && come[i] == target;
        assert(events[gone.len() + i] == added);
    }
}

} // verus!
