//! The queue of video files that await processing.
//!
//! A path enters the queue from the backlog found at start or from a watch
//! event, and only if it is neither queued, nor in hand, nor known to the
//! store. One path at a time is in hand. It leaves when its record is
//! stored or its name proves unreadable, and returns to the queue when an
//! attempt fails for a reason that may pass.

use crate::worker::{Disposition, Outcome, Stage};
use vstd::prelude::*;

verus! {

/// The texts of a list of strings.
pub open spec fn texts(list: Seq<String>) -> Seq<Seq<char>> {
    list.map_values(|s: String| s@)
}

/// Whether `list` holds a string with the text of `wanted`.
pub fn holds_text(list: &Vec<String>, wanted: &String) -> (b: bool)
    ensures
        b == texts(list@).contains(wanted@),
{
    let mut i: usize = 0;
    while i < list.len()
        invariant
            i <= list.len(),
            forall|j: int| 0 <= j < i ==> texts(list@)[j] != wanted@,
        decreases list.len() - i,
    {
        if list[i] == *wanted {
            assert(texts(list@)[i as int] == wanted@);
            return true;
        }
        i += 1;
    }
    false
}

/// The queue as a value: what is pending, what is in hand, what is known.
pub struct QueueState {
    /// The paths that await processing; the last is taken first.
    pub pending: Seq<Seq<char>>,
    /// The path in hand and the stage of its attempt.
    pub in_flight: Option<(Seq<char>, Stage)>,
    /// The paths that the store holds a record of.
    pub known: Set<Seq<char>>,
}

impl QueueState {
    /// Whether `path` is the one in hand.
    pub open spec fn in_hand(self, path: Seq<char>) -> bool {
        self.in_flight matches Some(attempt) && attempt.0 == path
    }

    /// Whether the queue accounts for `path`: it is pending, in hand or
    /// known to the store.
    pub open spec fn holds(self, path: Seq<char>) -> bool {
        self.pending.contains(path) || self.in_hand(path) || self.known.contains(path)
    }

    /// The queue's invariant: no path is pending twice, and no path is in
    /// two of the three places.
    pub open spec fn wf(self) -> bool {
        &&& self.pending.no_duplicates()
        &&& forall|i: int|
            0 <= i < self.pending.len() ==> !self.known.contains(#[trigger] self.pending[i])
                && !self.in_hand(self.pending[i])
        &&& self.in_flight matches Some(attempt) ==> !self.known.contains(attempt.0)
    }

    /// The queue after `path` was offered to it.
    pub open spec fn enqueue(self, path: Seq<char>) -> QueueState {
        if self.holds(path) {
            self
        } else {
            QueueState { pending: self.pending.push(path), ..self }
        }
    }

    /// The queue after the next path was taken in hand, if one could be.
    pub open spec fn begin(self) -> QueueState {
        if self.in_flight is None && self.pending.len() > 0 {
            QueueState {
                pending: self.pending.drop_last(),
                in_flight: Some((self.pending.last(), Stage::AwaitStability)),
                ..self
            }
        } else {
            self
        }
    }

    /// The queue after the attempt in hand moved to `stage`.
    pub open spec fn advance(self, stage: Stage) -> QueueState {
        match self.in_flight {
            Some(attempt) => QueueState { in_flight: Some((attempt.0, stage)), ..self },
            None => self,
        }
    }

    /// The queue after the attempt in hand ended with `outcome`. A path that
    /// is tried again goes behind all that are pending.
    pub open spec fn settle(self, outcome: Outcome) -> QueueState {
        match self.in_flight {
            None => self,
            Some(attempt) => match outcome.disposition() {
                Disposition::Persisted => QueueState {
                    in_flight: None,
                    known: self.known.insert(attempt.0),
                    ..self
                },
                Disposition::Requeued => QueueState {
                    pending: seq![attempt.0] + self.pending,
                    in_flight: None,
                    ..self
                },
                Disposition::Dropped => QueueState { in_flight: None, ..self },
            },
        }
    }
}

/// The paths among `filepaths` that are not known, each once, in the order
/// in which they first occur.
pub open spec fn backlog(filepaths: Seq<Seq<char>>, known: Set<Seq<char>>) -> Seq<Seq<char>>
    decreases filepaths.len(),
{
    if filepaths.len() == 0 {
        Seq::<Seq<char>>::empty()
    } else {
        let before = backlog(filepaths.drop_last(), known);
        let path = filepaths.last();
        if known.contains(path) || before.contains(path) {
            before
        } else {
            before.push(path)
        }
    }
}

/// The queue at start: the backlog is pending and nothing is in hand.
pub open spec fn seeded(filepaths: Seq<Seq<char>>, known: Seq<Seq<char>>) -> QueueState {
    QueueState {
        pending: backlog(filepaths, known.to_set()),
        in_flight: None,
        known: known.to_set(),
    }
}

/// The backlog holds exactly the paths found that are not known, each once.
pub proof fn lemma_backlog(filepaths: Seq<Seq<char>>, known: Set<Seq<char>>)
    ensures
        backlog(filepaths, known).no_duplicates(),
        forall|path: Seq<char>| #[trigger]
            backlog(filepaths, known).contains(path) <==> filepaths.contains(path)
                && !known.contains(path),
    decreases filepaths.len(),
{
    if filepaths.len() > 0 {
        let shorter = filepaths.drop_last();
        let before = backlog(shorter, known);
        let last = filepaths.last();
        let all = backlog(filepaths, known);
        lemma_backlog(shorter, known);
        assert forall|path: Seq<char>| #[trigger]
            all.contains(path) <==> filepaths.contains(path) && !known.contains(path) by {
            if all.contains(path) {
                let i = choose|i: int| 0 <= i < all.len() && all[i] == path;
                if i < before.len() {
                    assert(before[i] == path);
                    assert(before.contains(path));
                    let j = choose|j: int| 0 <= j < shorter.len() && shorter[j] == path;
                    assert(filepaths[j] == path);
                } else {
                    assert(path == last);
                    assert(filepaths[filepaths.len() - 1] == path);
                }
            }
            if filepaths.contains(path) && !known.contains(path) {
                let j = choose|j: int| 0 <= j < filepaths.len() && filepaths[j] == path;
                if j < shorter.len() {
                    assert(shorter[j] == path);
                    assert(shorter.contains(path));
                    assert(before.contains(path));
                    let i = choose|i: int| 0 <= i < before.len() && before[i] == path;
                    assert(all[i] == path);
                } else if before.contains(path) {
                    let i = choose|i: int| 0 <= i < before.len() && before[i] == path;
                    assert(all[i] == path);
                } else {
                    assert(all[all.len() - 1] == path);
                }
            }
        }
    }
}

/// The queue at start is well formed and accounts for every path found.
pub proof fn lemma_seeded(filepaths: Seq<Seq<char>>, known: Seq<Seq<char>>)
    ensures
        seeded(filepaths, known).wf(),
        forall|path: Seq<char>|
            filepaths.contains(path) ==> #[trigger] seeded(filepaths, known).holds(path),
{
    lemma_backlog(filepaths, known.to_set());
    let state = seeded(filepaths, known);
    assert forall|i: int| 0 <= i < state.pending.len() implies !state.known.contains(
        #[trigger] state.pending[i],
    ) && !state.in_hand(state.pending[i]) by {
        assert(state.pending.contains(state.pending[i]));
    }
}

/// Every step keeps the queue well formed.
pub proof fn lemma_steps_keep_wf(state: QueueState, path: Seq<char>, stage: Stage, outcome: Outcome)
    requires
        state.wf(),
    ensures
        state.enqueue(path).wf(),
        state.begin().wf(),
        state.advance(stage).wf(),
        state.settle(outcome).wf(),
{
    let a = state.enqueue(path);
    assert(a.wf()) by {
        if !state.holds(path) {
            assert forall|i: int, j: int|
                0 <= i < a.pending.len() && 0 <= j < a.pending.len() && i != j implies a.pending[i]
                != a.pending[j] by {
                if i < state.pending.len() {
                    assert(state.pending.contains(state.pending[i]));
                }
                if j < state.pending.len() {
                    assert(state.pending.contains(state.pending[j]));
                }
            }
        }
    }
    let b = state.begin();
    assert(b.wf()) by {
        if state.in_flight is None && state.pending.len() > 0 {
            let top = state.pending.len() - 1;
            assert(b.pending.no_duplicates());
            assert forall|i: int| 0 <= i < b.pending.len() implies !b.known.contains(
                #[trigger] b.pending[i],
            ) && !b.in_hand(b.pending[i]) by {
                assert(b.pending[i] == state.pending[i]);
                assert(state.pending[i] != state.pending[top]);
            }
            assert(!state.known.contains(state.pending[top]));
        }
    }
    let c = state.settle(outcome);
    assert(c.wf()) by {
        if let Some(attempt) = state.in_flight {
            assert(state.in_hand(attempt.0));
            match outcome.disposition() {
                Disposition::Persisted => {
                    assert forall|i: int| 0 <= i < c.pending.len() implies !c.known.contains(
                        #[trigger] c.pending[i],
                    ) && !c.in_hand(c.pending[i]) by {
                        assert(!state.in_hand(state.pending[i]));
                    }
                },
                Disposition::Requeued => {
                    assert forall|i: int, j: int|
                        0 <= i < c.pending.len() && 0 <= j < c.pending.len() && i
                            != j implies c.pending[i] != c.pending[j] by {
                        if i > 0 {
                            assert(c.pending[i] == state.pending[i - 1]);
                            assert(!state.in_hand(state.pending[i - 1]));
                        }
                        if j > 0 {
                            assert(c.pending[j] == state.pending[j - 1]);
                            assert(!state.in_hand(state.pending[j - 1]));
                        }
                    }
                    assert forall|i: int| 0 <= i < c.pending.len() implies !c.known.contains(
                        #[trigger] c.pending[i],
                    ) && !c.in_hand(c.pending[i]) by {
                        if i > 0 {
                            assert(c.pending[i] == state.pending[i - 1]);
                        }
                    }
                },
                Disposition::Dropped => {},
            }
        }
    }
}

/// An attempt: the path in hand and what the attempt waits for.
struct Attempt {
    path: String,
    stage: Stage,
}

/// The queue of video files that await processing, with the path in hand
/// and the paths that the store is known to hold.
pub struct IngestionQueue {
    pending: Vec<String>,
    in_flight: Option<Attempt>,
    known: Vec<String>,
}

impl View for IngestionQueue {
    type V = QueueState;

    closed spec fn view(&self) -> QueueState {
        QueueState {
            pending: texts(self.pending@),
            in_flight: match self.in_flight {
                Some(attempt) => Some((attempt.path@, attempt.stage)),
                None => None,
            },
            known: texts(self.known@).to_set(),
        }
    }
}

impl IngestionQueue {
    /// Whether the queue's invariant holds.
    pub open spec fn wf(&self) -> bool {
        self@.wf()
    }

    /// The queue at start: of the paths found on disk, those that the store
    /// does not know are pending, each once.
    pub fn seed(filepaths: &Vec<String>, db_filepaths: Vec<String>) -> (queue: IngestionQueue)
        ensures
            queue@ == seeded(texts(filepaths@), texts(db_filepaths@)),
            queue.wf(),
    {
        let ghost found = texts(filepaths@);
        let ghost known = texts(db_filepaths@).to_set();
        let mut pending: Vec<String> = Vec::new();
        let mut i: usize = 0;
        proof {
            assert(found.take(0) =~= Seq::<Seq<char>>::empty());
            assert(texts(pending@) =~= Seq::<Seq<char>>::empty());
        }
        while i < filepaths.len()
            invariant
                i <= filepaths.len(),
                found == texts(filepaths@),
                known == texts(db_filepaths@).to_set(),
                texts(pending@) == backlog(found.take(i as int), known),
            decreases filepaths.len() - i,
        {
            let path = &filepaths[i];
            proof {
                assert(found.take(i + 1).drop_last() =~= found.take(i as int));
                assert(found.take(i + 1).last() == path@);
            }
            if !holds_text(&db_filepaths, path) && !holds_text(&pending, path) {
                let ghost before = pending@;
                pending.push(path.clone());
                assert(texts(pending@) =~= texts(before).push(path@));
            }
            i += 1;
        }
        proof {
            assert(found.take(i as int) =~= found);
            lemma_seeded(found, texts(db_filepaths@));
        }
        IngestionQueue { pending, in_flight: None, known: db_filepaths }
    }

    /// How many paths are pending.
    pub fn len(&self) -> (n: usize)
        ensures
            n == self@.pending.len(),
    {
        self.pending.len()
    }

    /// Whether no path is pending.
    pub fn is_empty(&self) -> (b: bool)
        ensures
            b == (self@.pending.len() == 0),
    {
        self.pending.len() == 0
    }

    /// Whether the queue accounts for `path`: it is pending, in hand or
    /// known to the store.
    pub fn holds(&self, path: &str) -> (b: bool)
        ensures
            b == self@.holds(path@),
    {
        let wanted = path.to_owned();
        let in_hand = match &self.in_flight {
            Some(attempt) => attempt.path == wanted,
            None => false,
        };
        in_hand || holds_text(&self.pending, &wanted) || holds_text(&self.known, &wanted)
    }

    /// The path in hand and the stage of its attempt.
    pub fn in_hand(&self) -> (r: Option<(String, Stage)>)
        ensures
            match r {
                Some(attempt) => self@.in_flight == Some((attempt.0@, attempt.1)),
                None => self@.in_flight is None,
            },
    {
        match &self.in_flight {
            Some(attempt) => Some((attempt.path.clone(), attempt.stage)),
            None => None,
        }
    }

    /// Offers `path` to the queue, which takes it unless it accounts for it
    /// already. Says whether it took it.
    pub fn enqueue(&mut self, path: &str) -> (added: bool)
        requires
            old(self).wf(),
        ensures
            final(self)@ == old(self)@.enqueue(path@),
            final(self).wf(),
            added == !old(self)@.holds(path@),
    {
        proof {
            lemma_steps_keep_wf(self@, path@, Stage::AwaitStability, Outcome::Persisted);
        }
        if self.holds(path) {
            false
        } else {
            let ghost before = self.pending@;
            self.pending.push(path.to_owned());
            assert(texts(self.pending@) =~= texts(before).push(path@));
            true
        }
    }

    /// Takes the next path in hand: the one that was queued last. Gives
    /// `None`, and changes nothing, where a path is in hand already or none
    /// is pending.
    pub fn begin(&mut self) -> (next: Option<String>)
        requires
            old(self).wf(),
        ensures
            final(self)@ == old(self)@.begin(),
            final(self).wf(),
            match next {
                Some(path) => old(self)@.in_flight is None && old(self)@.pending.len() > 0
                    && path@ == old(self)@.pending.last(),
                None => !(old(self)@.in_flight is None && old(self)@.pending.len() > 0),
            },
    {
        proof {
            lemma_steps_keep_wf(self@, Seq::empty(), Stage::AwaitStability, Outcome::Persisted);
        }
        if self.in_flight.is_some() {
            return None;
        }
        let ghost before = self.pending@;
        match self.pending.pop() {
            Some(path) => {
                let copy = path.clone();
                self.in_flight = Some(Attempt { path, stage: Stage::AwaitStability });
                assert(texts(self.pending@) =~= texts(before).drop_last());
                Some(copy)
            },
            None => None,
        }
    }

    /// Moves the attempt in hand to `stage`.
    pub fn advance(&mut self, stage: Stage)
        requires
            old(self).wf(),
        ensures
            final(self)@ == old(self)@.advance(stage),
            final(self).wf(),
    {
        proof {
            lemma_steps_keep_wf(self@, Seq::empty(), stage, Outcome::Persisted);
        }
        match self.in_flight.take() {
            Some(attempt) => {
                self.in_flight = Some(Attempt { path: attempt.path, stage });
            },
            None => {},
        }
    }

    /// Ends the attempt in hand with `outcome`: the path becomes known, or
    /// goes behind all that are pending, or is given up. Says which.
    pub fn settle(&mut self, outcome: Outcome) -> (d: Disposition)
        requires
            old(self).wf(),
        ensures
            final(self)@ == old(self)@.settle(outcome),
            final(self).wf(),
            d == outcome.disposition(),
    {
        proof {
            lemma_steps_keep_wf(self@, Seq::empty(), Stage::AwaitStability, outcome);
        }
        let d = outcome.dispose();
        match self.in_flight.take() {
            Some(attempt) => match d {
                Disposition::Persisted => {
                    let ghost before = self.known@;
                    self.known.push(attempt.path);
                    proof {
                        assert(texts(self.known@) =~= texts(before).push(attempt.path@));
                        texts(before).lemma_push_to_set_commute(attempt.path@);
                    }
                },
                Disposition::Requeued => {
                    let ghost before = self.pending@;
                    self.pending.insert(0, attempt.path);
                    assert(texts(self.pending@) =~= seq![attempt.path@] + texts(before));
                },
                Disposition::Dropped => {},
            },
            None => {},
        }
        d
    }
}

} // verus!
