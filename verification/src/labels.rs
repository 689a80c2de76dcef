//! The label mapping and the pass that discovers it.
//!
//! The mapping holds the distinct targets in the order in which the scan first
//! met them. A target's identifier is its position in that order, so the
//! identifiers are 0, 1, 2, ... without a gap, and a target that comes again
//! keeps the identifier it has: the counter moves on a new target only.

use vstd::prelude::*;
use crate::pattern::{Line, LineModel, models};

verus! {

/// The identifier of `target` among `labels`, where it has one.
pub open spec fn label_of(labels: Seq<Seq<char>>, target: Seq<char>) -> Option<nat> {
    if labels.contains(target) {
        Some(labels.index_of(target) as nat)
    } else {
        None
    }
}

/// The mapping after `target` was met: a new target goes to the end, a known one
/// changes nothing.
pub open spec fn noted(labels: Seq<Seq<char>>, target: Seq<char>) -> Seq<Seq<char>> {
    if labels.contains(target) {
        labels
    } else {
        labels.push(target)
    }
}

/// The target that a line refers to, where the pattern matched it and captured
/// one.
pub open spec fn line_target(line: LineModel) -> Option<Seq<char>> {
    match line.found {
        Some(c) => c.target,
        None => None,
    }
}

/// The mapping that a scan of `lines` from first to last builds.
pub open spec fn discovered(lines: Seq<LineModel>) -> Seq<Seq<char>>
    decreases lines.len(),
{
    if lines.len() == 0 {
        Seq::empty()
    } else {
        let before = discovered(lines.drop_last());
        match line_target(lines.last()) {
            Some(target) => noted(before, target),
            None => before,
        }
    }
}

/// Targets, as they are written, with their identifiers.
pub struct LabelMap {
    targets: Vec<String>,
}

impl View for LabelMap {
    type V = Seq<Seq<char>>;

    /// The targets by identifier.
    closed spec fn view(&self) -> Seq<Seq<char>> {
        Seq::new(self.targets@.len(), |i: int| self.targets@[i]@)
    }
}

impl LabelMap {
    #[verifier::type_invariant]
    spec fn distinct(&self) -> bool {
        self@.no_duplicates()
    }

    /// A mapping without targets.
    pub fn new() -> (labels: LabelMap)
        ensures
            labels@ == Seq::<Seq<char>>::empty(),
    {
        let labels = LabelMap { targets: Vec::new() };
        assert(labels@ =~= Seq::<Seq<char>>::empty());
        labels
    }

    /// The number of targets, which is the next free identifier.
    pub fn len(&self) -> (n: usize)
        ensures
            n == self@.len(),
            self@.no_duplicates(),
    {
        proof {
            use_type_invariant(self);
        }
        self.targets.len()
    }

    /// The identifier of `target`, or `None` where the mapping does not hold it.
    pub fn id_of(&self, target: &String) -> (id: Option<usize>)
        ensures
            self@.no_duplicates(),
            match id {
                Some(n) => label_of(self@, target@) == Some(n as nat) && n < self@.len()
                    && self@[n as int] == target@,
                None => label_of(self@, target@) is None,
            },
    {
        proof {
            use_type_invariant(self);
        }
        let mut i: usize = 0;
        while i < self.targets.len()
            invariant
                i <= self.targets@.len(),
                self@.len() == self.targets@.len(),
                self@.no_duplicates(),
                forall|k: int| 0 <= k < i ==> self@[k] != target@,
            decreases self.targets.len() - i,
        {
            if self.targets[i] == *target {
                assert(self@[i as int] == target@);
                return Some(i);
            }
            i += 1;
        }
        None
    }

    /// Gives `target` the next identifier unless it has one, and returns the
    /// identifier that it has.
    pub fn record(&mut self, target: String) -> (id: usize)
        ensures
            final(self)@ == noted(old(self)@, target@),
            label_of(final(self)@, target@) == Some(id as nat),
            final(self)@.no_duplicates(),
    {
        proof {
            use_type_invariant(&*self);
        }
        match self.id_of(&target) {
            Some(id) => id,
            None => {
                let ghost before = self@;
                let mut taken = LabelMap::new();
                std::mem::swap(self, &mut taken);
                let mut targets = taken.targets;
                let id = targets.len();
                let ghost written = target@;
                targets.push(target);
                proof {
                    let after = Seq::new(targets@.len(), |i: int| targets@[i]@);
                    assert(after =~= before.push(written));
                    lemma_noted_distinct(before, written);
                    assert(after[id as int] == written);
                }
                *self = LabelMap { targets };
                id
            },
        }
    }
}

/// Meeting a target keeps the targets distinct.
pub proof fn lemma_noted_distinct(labels: Seq<Seq<char>>, target: Seq<char>)
    requires
        labels.no_duplicates(),
    ensures
        noted(labels, target).no_duplicates(),
        noted(labels, target).contains(target),
        labels.is_prefix_of(noted(labels, target)),
{
    let after = noted(labels, target);
    if labels.contains(target) {
    } else {
        assert(after[labels.len() as int] == target);
    }
}

/// The discovery pass: scans the lines in order and gives each target that a
/// matched line captured, when it is first met, the next identifier. A line
/// without a match, or whose match captured no target, adds nothing.
pub fn discover(lines: &Vec<Line>) -> (labels: LabelMap)
    ensures
        labels@ == discovered(models(lines@)),
{
    let mut labels = LabelMap::new();
    let mut i: usize = 0;
    assert(models(lines@).take(0) =~= Seq::<LineModel>::empty());
    while i < lines.len()
        invariant
            i <= lines.len(),
            labels@ == discovered(models(lines@).take(i as int)),
        decreases lines.len() - i,
    {
        proof {
            let next = models(lines@).take(i + 1);
            assert(next.drop_last() =~= models(lines@).take(i as int));
            assert(next.last() == lines@[i as int]@);
        }
        match &lines[i].found {
            Some(c) => {
                match &c.target {
                    Some(t) => {
                        labels.record(t.clone());
                    },
                    None => {},
                }
            },
            None => {},
        }
        i += 1;
    }
    assert(models(lines@).take(lines@.len() as int) =~= models(lines@));
    labels
}

/// Every target that a line refers to has exactly one identifier; the
/// identifiers are the numbers from 0 up to the number of distinct targets,
/// each used once; and every identifier belongs to a target that some line
/// refers to.
pub proof fn lemma_labels_unique(lines: Seq<LineModel>)
    ensures
        discovered(lines).no_duplicates(),
        forall|i: int|
            0 <= i < lines.len() && line_target(#[trigger] lines[i]) is Some ==> {
                let id = label_of(discovered(lines), line_target(lines[i])->0);
                id is Some && id->0 < discovered(lines).len()
            },
        forall|id: int|
            0 <= id < discovered(lines).len() ==> label_of(
                discovered(lines),
                #[trigger] discovered(lines)[id],
            ) == Some(id as nat),
        forall|id: int|
            0 <= id < discovered(lines).len() ==> exists|i: int|
                0 <= i < lines.len() && line_target(#[trigger] lines[i]) == Some(
                    (#[trigger] discovered(lines)[id]),
                ),
    decreases lines.len(),
{
    let all = discovered(lines);
    if lines.len() > 0 {
        let init = lines.drop_last();
        let before = discovered(init);
        lemma_labels_unique(init);
        match line_target(lines.last()) {
            Some(target) => {
                lemma_noted_distinct(before, target);
            },
            None => {},
        }
        assert(before.is_prefix_of(all));
        assert forall|i: int| 0 <= i < lines.len() && line_target(#[trigger] lines[i]) is Some implies {
            let id = label_of(all, line_target(lines[i])->0);
            id is Some && id->0 < all.len()
        } by {
            let t = line_target(lines[i])->0;
            if i < lines.len() - 1 {
                assert(lines[i] == init[i]);
                let j = before.index_of(t);
                assert(before.contains(t));
                assert(all[j] == t);
            }
            assert(all.contains(t));
        }
        assert forall|id: int| 0 <= id < all.len() implies exists|i: int|
            0 <= i < lines.len() && line_target(#[trigger] lines[i]) == Some(
                (#[trigger] all[id]),
            ) by {
            if id < before.len() {
                assert(all[id] == before[id]);
                let i = choose|i: int|
                    0 <= i < init.len() && line_target(#[trigger] init[i]) == Some(before[id]);
                assert(lines[i] == init[i]);
            } else {
                assert(line_target(lines[lines.len() - 1]) == Some(all[id]));
            }
        }
    }
    assert forall|id: int| 0 <= id < all.len() implies label_of(all, #[trigger] all[id]) == Some(
        id as nat,
    ) by {
        assert(all.contains(all[id]));
    }
}

/// An identifier, once given, stays: the mapping of the first `k` lines is the
/// beginning of the mapping of all of them.
pub proof fn lemma_labels_stable(lines: Seq<LineModel>, k: int)
    requires
        0 <= k <= lines.len(),
    ensures
        discovered(lines.take(k)).is_prefix_of(discovered(lines)),
    decreases lines.len(),
{
    if k == lines.len() {
        assert(lines.take(k) =~= lines);
    } else {
        let init = lines.drop_last();
        lemma_labels_stable(init, k);
        assert(init.take(k) =~= lines.take(k));
        lemma_labels_unique(init);
        match line_target(lines.last()) {
            Some(target) => {
                lemma_noted_distinct(discovered(init), target);
            },
            None => {},
        }
    }
}

} // verus!
