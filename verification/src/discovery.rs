//! What every discovery strategy produces: snapshots of the backends that
//! are available, or the reason why a round gave none.

use vstd::prelude::*;
use crate::interval::Interval;
use crate::target::{ConnectionTarget, TargetView};

verus! {

/// Why a discovery round produced no snapshot. None of these is fatal: the
/// round is tried again at the next tick.
#[derive(Clone, Copy, Debug, PartialEq, Eq, Structural)]
pub enum DiscoveryError {
    /// The backing source could not be reached or queried.
    Unreachable,
    /// The backing source did not answer in time.
    Timeout,
    /// The backing source answered with something that cannot be read.
    Malformed,
}

/// How a strategy wants to be driven.
#[derive(Clone, Copy, Debug, PartialEq, Eq, Structural)]
pub enum DiscoveryMode {
    /// The caller asks for a snapshot once per interval.
    Polling(Interval),
    /// The strategy delivers snapshots by itself as the source changes.
    Pushed,
}

/// The number of the snapshot that follows the one numbered `last`. The
/// numbers rise by one and stop at the largest that fits.
pub open spec fn next_sequence(last: u64) -> u64 {
    if last < u64::MAX {
        (last + 1) as u64
    } else {
        last
    }
}

/// The identities of `targets`, in their order.
pub open spec fn identities(targets: Seq<ConnectionTarget>) -> Seq<TargetView> {
    targets.map_values(|t: ConnectionTarget| t@)
}

/// `s` without repetitions: of equal items the first stays, in its place.
pub open spec fn distinct<A>(s: Seq<A>) -> Seq<A>
    decreases s.len(),
{
    if s.len() == 0 {
        Seq::empty()
    } else {
        let head = distinct(s.drop_last());
        if head.contains(s.last()) {
            head
        } else {
            head.push(s.last())
        }
    }
}

/// `distinct` keeps every item once: it repeats nothing and loses nothing.
pub proof fn lemma_distinct<A>(s: Seq<A>)
    ensures
        distinct(s).no_duplicates(),
        forall|x: A| distinct(s).contains(x) <==> s.contains(x),
        distinct(s).len() <= s.len(),
    decreases s.len(),
{
    if s.len() > 0 {
        let front = s.drop_last();
        let head = distinct(front);
        lemma_distinct(front);
        let out = distinct(s);
        assert forall|x: A| out.contains(x) <==> s.contains(x) by {
            if out.contains(x) {
                let i = choose|i: int| 0 <= i < out.len() && out[i] == x;
                if i < head.len() {
                    assert(head[i] == x);
                    assert(head.contains(x));
                    assert(front.contains(x));
                    let j = choose|j: int| 0 <= j < front.len() && front[j] == x;
                    assert(s[j] == x);
                } else {
                    assert(x == s.last());
                    assert(s[s.len() - 1] == x);
                }
            }
            if s.contains(x) {
                let j = choose|j: int| 0 <= j < s.len() && s[j] == x;
                if j < front.len() {
                    assert(front[j] == x);
                    assert(front.contains(x));
                    assert(head.contains(x));
                    let i = choose|i: int| 0 <= i < head.len() && head[i] == x;
                    assert(out[i] == x);
                } else {
                    if head.contains(x) {
                    } else {
                        assert(out[out.len() - 1] == x);
                    }
                }
            }
        }
    }
}

/// Where nothing repeats, `distinct` changes nothing.
pub proof fn law_distinct_keeps_what_is_distinct<A>(s: Seq<A>)
    requires
        s.no_duplicates(),
    ensures
        distinct(s) == s,
    decreases s.len(),
{
    if s.len() > 0 {
        let front = s.drop_last();
        law_distinct_keeps_what_is_distinct(front);
        if front.contains(s.last()) {
            let j = choose|j: int| 0 <= j < front.len() && front[j] == s.last();
            assert(s[j] == s[s.len() - 1]);
        }
        assert(front.push(s.last()) =~= s);
    } else {
        assert(s =~= Seq::<A>::empty());
    }
}

/// Whether `target` is one of `list`, by identity.
pub fn contains_target(list: &Vec<ConnectionTarget>, target: &ConnectionTarget) -> (found: bool)
    ensures
        found == identities(list@).contains(target@),
{
    let mut i: usize = 0;
    while i < list.len()
        invariant
            i <= list.len(),
            forall|k: int| 0 <= k < i ==> identities(list@)[k] != target@,
        decreases list.len() - i,
    {
        if list[i].same(target) {
            assert(identities(list@)[i as int] == target@);
            return true;
        }
        i += 1;
    }
    false
}

/// A copy of `list`, item by item.
pub fn copy_targets(list: &Vec<ConnectionTarget>) -> (copy: Vec<ConnectionTarget>)
    ensures
        identities(copy@) == identities(list@),
{
    let mut copy: Vec<ConnectionTarget> = Vec::new();
    let mut i: usize = 0;
    while i < list.len()
        invariant
            i <= list.len(),
            copy@.len() == i,
            forall|k: int| 0 <= k < i ==> copy@[k]@ == list@[k]@,
        decreases list.len() - i,
    {
        copy.push(list[i].clone());
        i += 1;
    }
    assert(identities(copy@) =~= identities(list@));
    copy
}

/// One full observation of the discovery source: the backends that it
/// showed, each once, and the number of the observation.
#[derive(Debug)]
pub struct DiscoverySnapshot {
    targets: Vec<ConnectionTarget>,
    sequence: u64,
}

/// What a [`DiscoverySnapshot`] stands for in contracts.
pub struct SnapshotView {
    /// The backends in the order in which the source showed them first.
    pub targets: Seq<TargetView>,
    pub sequence: u64,
}

impl SnapshotView {
    /// The member set.
    pub open spec fn members(self) -> Set<TargetView> {
        self.targets.to_set()
    }

    /// No backend occurs twice.
    pub open spec fn wf(self) -> bool {
        self.targets.no_duplicates()
    }
}

impl View for DiscoverySnapshot {
    type V = SnapshotView;

    closed spec fn view(&self) -> SnapshotView {
        SnapshotView { targets: identities(self.targets@), sequence: self.sequence }
    }
}

impl DiscoverySnapshot {
    /// No backend occurs twice.
    pub open spec fn wf(&self) -> bool {
        self@.wf()
    }

    /// The snapshot numbered `sequence` of what the source showed. Backends
    /// shown more than once count once. Nothing shown is a snapshot too: the
    /// empty one.
    pub fn new(found: Vec<ConnectionTarget>, sequence: u64) -> (snapshot: DiscoverySnapshot)
        ensures
            snapshot.wf(),
            snapshot@.targets == distinct(identities(found@)),
            snapshot@.sequence == sequence,
    {
        let mut targets: Vec<ConnectionTarget> = Vec::new();
        let mut i: usize = 0;
        while i < found.len()
            invariant
                i <= found.len(),
                identities(targets@) == distinct(identities(found@).take(i as int)),
            decreases found.len() - i,
        {
            let ghost seen = identities(found@).take(i as int);
            let ghost next = identities(found@).take(i as int + 1);
            proof {
                assert(next.drop_last() =~= seen);
                assert(next.last() == found@[i as int]@);
            }
            if !contains_target(&targets, &found[i]) {
                let ghost before = identities(targets@);
                targets.push(found[i].clone());
                assert(identities(targets@) =~= before.push(found@[i as int]@));
            }
            i += 1;
        }
        proof {
            assert(identities(found@).take(found.len() as int) =~= identities(found@));
            lemma_distinct(identities(found@));
        }
        DiscoverySnapshot { targets, sequence }
    }

    /// The number of the observation.
    pub fn sequence(&self) -> (n: u64)
        ensures
            n == self@.sequence,
    {
        self.sequence
    }

    /// The backends, each once, in the order in which the source showed them first.
    pub fn targets(&self) -> (list: &Vec<ConnectionTarget>)
        ensures
            identities(list@) == self@.targets,
    {
        &self.targets
    }

    /// How many backends the snapshot holds.
    pub fn len(&self) -> (n: usize)
        ensures
            n == self@.targets.len(),
    {
        self.targets.len()
    }

    /// Whether the source showed nothing.
    pub fn is_empty(&self) -> (empty: bool)
        ensures
            empty == (self@.targets.len() == 0),
    {
        self.targets.len() == 0
    }

    /// Whether `target` is a member.
    pub fn contains(&self, target: &ConnectionTarget) -> (found: bool)
        ensures
            found == self@.members().contains(target@),
    {
        contains_target(&self.targets, target)
    }
}

/// A discovery strategy. It takes the raw answer of its backing source
/// for one round and makes the round's outcome of it. It never touches a
/// pool.
pub trait ServiceDiscoverer {
    /// What the backing source answers in one round.
    type Answer;

    /// The number of the last snapshot made; 0 before the first.
    spec fn last_sequence(&self) -> u64;

    /// How the strategy wants to be driven.
    fn mode(&self) -> DiscoveryMode;

    /// Makes the outcome of one round. Snapshots are numbered in the order
    /// in which they are made; a failed round makes none and uses no number.
    fn discover(&mut self, answer: Self::Answer) -> (round: Result<
        DiscoverySnapshot,
        DiscoveryError,
    >)
        ensures
            match round {
                Ok(snapshot) => {
                    &&& snapshot.wf()
                    &&& snapshot@.sequence == next_sequence(old(self).last_sequence())
                    &&& final(self).last_sequence() == snapshot@.sequence
                },
                Err(_) => final(self).last_sequence() == old(self).last_sequence(),
            },
    ;
}

} // verus!
