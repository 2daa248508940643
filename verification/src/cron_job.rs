//! The ingestion loop, as the decisions it takes.
//!
//! The loop that drives ingestion waits, samples file sizes, calls the
//! detection oracle and writes to the store. Each time one of these is
//! done it reports here, and is told what to do next. Watch events reach
//! the same queue from another thread of control.

pub mod deletion_job;

use crate::codec::Convention;
use crate::models::{DBRecord, RecordView};
use crate::path::{is_video_path, names_video};
use crate::queue::{lemma_seeded, lemma_steps_keep_wf, seeded, texts, IngestionQueue, QueueState};
use crate::worker::{
    directive_for, process_filepath, Directive, DirectiveView, Disposition, Outcome, Report,
    ReportView, Stage,
};
use vstd::prelude::*;

verus! {

/// What the ingestion loop reports.
#[derive(Clone, Debug, PartialEq, Eq)]
pub enum Event {
    /// The loop is free: it has started, or a wait or a pause is over.
    Wake,
    /// A result of the work on the file in hand.
    Report(Report),
}

/// An event with its text as a sequence of characters.
pub enum EventView {
    Wake,
    Report(ReportView),
}

impl View for Event {
    type V = EventView;

    open spec fn view(&self) -> EventView {
        match self {
            Event::Wake => EventView::Wake,
            Event::Report(report) => EventView::Report(report@),
        }
    }
}

/// What the ingestion loop is to do next.
#[derive(Clone, Debug, PartialEq, Eq)]
pub enum Action {
    /// Wait for the wake signal or the fallback timer, then report `Wake`.
    Wait,
    /// Sample the size of this file until it is judged, then report whether
    /// it is stable.
    CheckStability(String),
    /// Hand this file to the detection oracle, then report what it found.
    Detect(String),
    /// Store this record, then report whether the store took it.
    Insert(DBRecord),
    /// The attempt on the file in hand has ended with this outcome: pause,
    /// then report `Wake`.
    Pause(Outcome),
}

/// An action with its texts as sequences of characters.
pub enum ActionView {
    Wait,
    CheckStability(Seq<char>),
    Detect(Seq<char>),
    Insert(RecordView),
    Pause(Outcome),
}

impl View for Action {
    type V = ActionView;

    open spec fn view(&self) -> ActionView {
        match self {
            Action::Wait => ActionView::Wait,
            Action::CheckStability(path) => ActionView::CheckStability(path@),
            Action::Detect(path) => ActionView::Detect(path@),
            Action::Insert(record) => ActionView::Insert(record@),
            Action::Pause(outcome) => ActionView::Pause(*outcome),
        }
    }
}

/// The queue after `event`, and the action that answers it.
///
/// With no file in hand, a wake takes the next pending file in hand, or
/// waits where none is pending. With a file in hand, a report that answers
/// what its attempt waits for moves the attempt on or ends it; any other
/// event changes nothing.
pub open spec fn step(state: QueueState, event: EventView, convention: Convention) -> (
    QueueState,
    ActionView,
) {
    match state.in_flight {
        None => match event {
            EventView::Wake => if state.pending.len() > 0 {
                (state.begin(), ActionView::CheckStability(state.pending.last()))
            } else {
                (state, ActionView::Wait)
            },
            EventView::Report(_) => (state, ActionView::Wait),
        },
        Some(attempt) => match event {
            EventView::Wake => (state, ActionView::Wait),
            EventView::Report(report) => match directive_for(
                attempt.0,
                attempt.1,
                report,
                convention,
            ) {
                DirectiveView::Detect => (
                    state.advance(Stage::AwaitDetection),
                    ActionView::Detect(attempt.0),
                ),
                DirectiveView::Insert(record) => (
                    state.advance(Stage::AwaitInsertion),
                    ActionView::Insert(record),
                ),
                DirectiveView::Conclude(outcome) => (
                    state.settle(outcome),
                    ActionView::Pause(outcome),
                ),
                DirectiveView::Ignore => (state, ActionView::Wait),
            },
        },
    }
}

/// Takes in what the ingestion loop reports and says what it is to do next.
pub fn add_new_records(queue: &mut IngestionQueue, event: Event, convention: Convention) -> (action:
    Action)
    requires
        old(queue).wf(),
    ensures
        final(queue).wf(),
        final(queue)@ == step(old(queue)@, event@, convention).0,
        action@ == step(old(queue)@, event@, convention).1,
{
    match queue.in_hand() {
        None => match event {
            Event::Wake => match queue.begin() {
                Some(path) => Action::CheckStability(path),
                None => Action::Wait,
            },
            Event::Report(_) => Action::Wait,
        },
        Some((path, stage)) => match event {
            Event::Wake => Action::Wait,
            Event::Report(report) => match process_filepath(
                path.as_str(),
                stage,
                report,
                convention,
            ) {
                Directive::Detect => {
                    queue.advance(Stage::AwaitDetection);
                    Action::Detect(path)
                },
                Directive::Insert(record) => {
                    queue.advance(Stage::AwaitInsertion);
                    Action::Insert(record)
                },
                Directive::Conclude(outcome) => {
                    queue.settle(outcome);
                    Action::Pause(outcome)
                },
                Directive::Ignore => Action::Wait,
            },
        },
    }
}

/// An entry of the watched tree as it was seen.
#[derive(Clone, Debug, PartialEq, Eq)]
pub struct Sighting {
    /// The path of the entry.
    pub path: String,
    /// Whether the entry was a regular file when it was seen.
    pub is_file: bool,
}

/// A sighting with its path as a sequence of characters.
pub struct SightingView {
    pub path: Seq<char>,
    pub is_file: bool,
}

impl View for Sighting {
    type V = SightingView;

    open spec fn view(&self) -> SightingView {
        SightingView { path: self.path@, is_file: self.is_file }
    }
}

/// The views of a list of sightings.
pub open spec fn sightings(list: Seq<Sighting>) -> Seq<SightingView> {
    list.map_values(|s: Sighting| s@)
}

/// Whether an entry is a video to ingest: a regular file whose name is not
/// hidden and carries the video extension.
pub open spec fn is_candidate(entry: SightingView, extension: Seq<char>) -> bool {
    entry.is_file && names_video(entry.path, extension)
}

/// The paths of the videos among `entries`, in order.
pub open spec fn videos_among(entries: Seq<SightingView>, extension: Seq<char>) -> Seq<Seq<char>>
    decreases entries.len(),
{
    if entries.len() == 0 {
        Seq::<Seq<char>>::empty()
    } else if is_candidate(entries.last(), extension) {
        videos_among(entries.drop_last(), extension).push(entries.last().path)
    } else {
        videos_among(entries.drop_last(), extension)
    }
}

/// Picks the paths of the videos out of the entries that a walk of the
/// watched tree has found.
pub fn get_all_file_paths(entries: &Vec<Sighting>, extension: &str) -> (paths: Vec<String>)
    ensures
        texts(paths@) == videos_among(sightings(entries@), extension@),
{
    let ghost all = sightings(entries@);
    let mut paths: Vec<String> = Vec::new();
    let mut i: usize = 0;
    proof {
        assert(all.take(0) =~= Seq::<SightingView>::empty());
        assert(texts(paths@) =~= Seq::<Seq<char>>::empty());
    }
    while i < entries.len()
        invariant
            i <= entries.len(),
            all == sightings(entries@),
            texts(paths@) == videos_among(all.take(i as int), extension@),
        decreases entries.len() - i,
    {
        let entry = &entries[i];
        proof {
            assert(all.take(i + 1).drop_last() =~= all.take(i as int));
            assert(all.take(i + 1).last() == entry@);
        }
        if entry.is_file && is_video_path(entry.path.as_str(), extension) {
            let ghost before = paths@;
            paths.push(entry.path.clone());
            assert(texts(paths@) =~= texts(before).push(entry.path@));
        }
        i += 1;
    }
    assert(all.take(i as int) =~= all);
    paths
}

/// What kind of change a watch event tells of.
#[derive(Clone, Copy, Debug, PartialEq, Eq, Structural)]
pub enum WatchKind {
    /// Entries were created.
    Create,
    /// Anything else.
    Other,
}

/// The queue after each of `paths` was offered to it, in order.
pub open spec fn offered(state: QueueState, paths: Seq<Seq<char>>) -> QueueState
    decreases paths.len(),
{
    if paths.len() == 0 {
        state
    } else {
        offered(state, paths.drop_last()).enqueue(paths.last())
    }
}

/// The queue after a watch event: the videos among the entries of a
/// creation are offered to it, and any other event changes nothing.
pub open spec fn after_event(
    state: QueueState,
    kind: WatchKind,
    entries: Seq<SightingView>,
    extension: Seq<char>,
) -> QueueState {
    match kind {
        WatchKind::Create => offered(state, videos_among(entries, extension)),
        WatchKind::Other => state,
    }
}

/// Takes in a watch event. Says how many paths the queue took: where it
/// took any, the ingestion loop is to be woken.
pub fn handle_event(
    queue: &mut IngestionQueue,
    kind: WatchKind,
    entries: &Vec<Sighting>,
    extension: &str,
) -> (added: usize)
    requires
        old(queue).wf(),
    ensures
        final(queue).wf(),
        final(queue)@ == after_event(old(queue)@, kind, sightings(entries@), extension@),
        added == final(queue)@.pending.len() - old(queue)@.pending.len(),
{
    match kind {
        WatchKind::Other => {
            return 0;
        },
        WatchKind::Create => {},
    }
    let ghost all = sightings(entries@);
    let ghost start = queue@;
    let mut added: usize = 0;
    let mut i: usize = 0;
    proof {
        assert(all.take(0) =~= Seq::<SightingView>::empty());
    }
    while i < entries.len()
        invariant
            i <= entries.len(),
            all == sightings(entries@),
            queue.wf(),
            queue@ == offered(start, videos_among(all.take(i as int), extension@)),
            added == queue@.pending.len() - start.pending.len(),
            added <= i,
        decreases entries.len() - i,
    {
        let entry = &entries[i];
        proof {
            assert(all.take(i + 1).drop_last() =~= all.take(i as int));
            assert(all.take(i + 1).last() == entry@);
            let found = videos_among(all.take(i as int), extension@);
            assert(found.push(entry.path@).drop_last() =~= found);
        }
        if entry.is_file && is_video_path(entry.path.as_str(), extension) {
            if queue.enqueue(entry.path.as_str()) {
                added += 1;
            }
        }
        i += 1;
    }
    assert(all.take(i as int) =~= all);
    added
}

/// A record is asked to be stored once in an attempt: only for the path in
/// hand, which the store does not know, only in answer to its detections,
/// and not again while the answer of the store is awaited.
pub proof fn lemma_one_insert_per_attempt(
    state: QueueState,
    event: EventView,
    convention: Convention,
)
    requires
        state.wf(),
    ensures
        step(state, event, convention).1 matches ActionView::Insert(record) ==> {
            &&& state.in_flight == Some((record.filepath, Stage::AwaitDetection))
            &&& !state.known.contains(record.filepath)
            &&& !state.pending.contains(record.filepath)
            &&& step(state, event, convention).0.in_flight == Some(
                (record.filepath, Stage::AwaitInsertion),
            )
        },
        state.in_flight matches Some(attempt) && attempt.1 == Stage::AwaitInsertion ==> !(step(
            state,
            event,
            convention,
        ).1 is Insert),
{
    if let ActionView::Insert(record) = step(state, event, convention).1 {
        assert(state.in_hand(record.filepath));
        if state.pending.contains(record.filepath) {
            let i = choose|i: int|
                0 <= i < state.pending.len() && state.pending[i] == record.filepath;
            assert(!state.in_hand(state.pending[i]));
        }
    }
}

/// What reaches the queue: a path offered by the watcher, or an event
/// reported by the ingestion loop.
pub enum Input {
    Offer(Seq<char>),
    Event(EventView),
}

/// The queue after `input`.
pub open spec fn apply(state: QueueState, input: Input, convention: Convention) -> QueueState {
    match input {
        Input::Offer(path) => state.enqueue(path),
        Input::Event(event) => step(state, event, convention).0,
    }
}

/// The outcome with which `input` ends the attempt in hand, if it ends it.
pub open spec fn concluded_by(state: QueueState, input: Input, convention: Convention) -> Option<
    (Seq<char>, Outcome),
> {
    match (state.in_flight, input) {
        (Some(attempt), Input::Event(event)) => match step(state, event, convention).1 {
            ActionView::Pause(outcome) => Some((attempt.0, outcome)),
            _ => None,
        },
        _ => None,
    }
}

/// The queue after all of `inputs`, in order.
pub open spec fn run(state: QueueState, inputs: Seq<Input>, convention: Convention) -> QueueState
    decreases inputs.len(),
{
    if inputs.len() == 0 {
        state
    } else {
        apply(run(state, inputs.drop_last(), convention), inputs.last(), convention)
    }
}

/// The paths whose attempts ended during `inputs` with the disposition
/// `how`, in the order in which they ended.
pub open spec fn ended_during(
    state: QueueState,
    inputs: Seq<Input>,
    convention: Convention,
    how: Disposition,
) -> Seq<Seq<char>>
    decreases inputs.len(),
{
    if inputs.len() == 0 {
        Seq::<Seq<char>>::empty()
    } else {
        let before = ended_during(state, inputs.drop_last(), convention, how);
        let then = run(state, inputs.drop_last(), convention);
        match concluded_by(then, inputs.last(), convention) {
            Some((path, outcome)) => if outcome.disposition() == how {
                before.push(path)
            } else {
                before
            },
            None => before,
        }
    }
}

/// The paths whose records were stored during `inputs`, in order.
pub open spec fn stored_during(state: QueueState, inputs: Seq<Input>, convention: Convention) -> Seq<
    Seq<char>,
> {
    ended_during(state, inputs, convention, Disposition::Persisted)
}

/// The paths that were given up during `inputs`, in order.
pub open spec fn given_up_during(
    state: QueueState,
    inputs: Seq<Input>,
    convention: Convention,
) -> Seq<Seq<char>> {
    ended_during(state, inputs, convention, Disposition::Dropped)
}

/// Whatever reaches the queue, it stays well formed.
pub proof fn lemma_run_keeps_wf(state: QueueState, inputs: Seq<Input>, convention: Convention)
    requires
        state.wf(),
    ensures
        run(state, inputs, convention).wf(),
    decreases inputs.len(),
{
    if inputs.len() > 0 {
        lemma_run_keeps_wf(state, inputs.drop_last(), convention);
        let then = run(state, inputs.drop_last(), convention);
        lemma_apply_keeps_wf(then, inputs.last(), convention);
    }
}

/// One input keeps the queue well formed.
pub proof fn lemma_apply_keeps_wf(state: QueueState, input: Input, convention: Convention)
    requires
        state.wf(),
    ensures
        apply(state, input, convention).wf(),
{
    match input {
        Input::Offer(path) => {
            lemma_steps_keep_wf(state, path, Stage::AwaitStability, Outcome::Persisted);
        },
        Input::Event(event) => {
            lemma_steps_keep_wf(
                state,
                Seq::empty(),
                Stage::AwaitDetection,
                Outcome::Persisted,
            );
            lemma_steps_keep_wf(
                state,
                Seq::empty(),
                Stage::AwaitInsertion,
                Outcome::Persisted,
            );
            if let ActionView::Pause(outcome) = step(state, event, convention).1 {
                lemma_steps_keep_wf(
                    state,
                    Seq::empty(),
                    Stage::AwaitStability,
                    outcome,
                );
            }
        },
    }
}

/// No record is stored twice: whatever paths are offered and whatever the
/// work outside reports, in whatever order, the paths whose records are
/// stored are all different, none was known to the store before, and they
/// are what the store is known to hold afterwards beyond what it held.
pub proof fn lemma_no_path_stored_twice(
    state: QueueState,
    inputs: Seq<Input>,
    convention: Convention,
)
    requires
        state.wf(),
    ensures
        stored_during(state, inputs, convention).no_duplicates(),
        forall|path: Seq<char>|
            #![trigger stored_during(state, inputs, convention).contains(path)]
            #![trigger run(state, inputs, convention).known.contains(path)]
            run(state, inputs, convention).known.contains(path) <==> (state.known.contains(path)
                || stored_during(state, inputs, convention).contains(path)),
        forall|path: Seq<char>|
            #[trigger] stored_during(state, inputs, convention).contains(path)
                ==> !state.known.contains(path),
    decreases inputs.len(),
{
    let how = Disposition::Persisted;
    let all = stored_during(state, inputs, convention);
    assert(all == ended_during(state, inputs, convention, how));
    if inputs.len() > 0 {
        let shorter = inputs.drop_last();
        lemma_no_path_stored_twice(state, shorter, convention);
        lemma_run_keeps_wf(state, shorter, convention);
        let then = run(state, shorter, convention);
        let after = run(state, inputs, convention);
        let before = stored_during(state, shorter, convention);
        assert(before == ended_during(state, shorter, convention, how));
        let added: Option<Seq<char>> = match concluded_by(then, inputs.last(), convention) {
            Some((path, outcome)) => if outcome.disposition() == how {
                Some(path)
            } else {
                None
            },
            None => None,
        };
        match added {
            Some(path) => {
                assert(all == before.push(path));
                assert(after.known == then.known.insert(path));
                assert(!then.known.contains(path));
                if before.contains(path) {
                    assert(then.known.contains(path));
                }
                assert(!before.contains(path));
                assert(all[all.len() - 1] == path);
            },
            None => {
                assert(all == before);
                assert(after.known == then.known);
            },
        }
        assert forall|p: Seq<char>| #[trigger]
            all.contains(p) <==> before.contains(p) || added == Some(p) by {
            if before.contains(p) {
                let i = choose|i: int| 0 <= i < before.len() && before[i] == p;
                assert(all[i] == p);
            }
            if all.contains(p) {
                let i = choose|i: int| 0 <= i < all.len() && all[i] == p;
                if i < before.len() {
                    assert(before[i] == p);
                }
            }
        }
        assert forall|p: Seq<char>|
            after.known.contains(p) <==> (state.known.contains(p) || all.contains(p)) by {
            assert(then.known.contains(p) <==> (state.known.contains(p) || before.contains(p)));
        }
        assert forall|p: Seq<char>| #[trigger] all.contains(p) implies !state.known.contains(
            p,
        ) by {
            if before.contains(p) {
            } else {
                assert(!then.known.contains(p));
            }
        }
        assert forall|i: int, j: int|
            0 <= i < all.len() && 0 <= j < all.len() && i != j implies all[i] != all[j] by {
            if i < before.len() {
                assert(before.contains(before[i]));
            }
            if j < before.len() {
                assert(before.contains(before[j]));
            }
        }
    } else {
        assert forall|p: Seq<char>| !(#[trigger] all.contains(p)) by {}
        assert(run(state, inputs, convention) == state);
    }
}

/// No path is lost in silence: a path that the queue accounts for is still
/// accounted for after whatever reaches the queue, or it was given up, and
/// that with an outcome that says why.
pub proof fn lemma_no_path_lost(
    state: QueueState,
    inputs: Seq<Input>,
    convention: Convention,
    path: Seq<char>,
)
    requires
        state.wf(),
        state.holds(path),
    ensures
        run(state, inputs, convention).holds(path) || given_up_during(
            state,
            inputs,
            convention,
        ).contains(path),
    decreases inputs.len(),
{
    let how = Disposition::Dropped;
    if inputs.len() > 0 {
        let shorter = inputs.drop_last();
        lemma_no_path_lost(state, shorter, convention, path);
        lemma_run_keeps_wf(state, shorter, convention);
        let then = run(state, shorter, convention);
        let after = run(state, inputs, convention);
        let before = given_up_during(state, shorter, convention);
        let all = given_up_during(state, inputs, convention);
        assert(before == ended_during(state, shorter, convention, how));
        assert(all == ended_during(state, inputs, convention, how));
        if before.contains(path) {
            let i = choose|i: int| 0 <= i < before.len() && before[i] == path;
            assert(all[i] == path);
        } else {
            assert(then.holds(path));
            lemma_apply_keeps_hold(then, inputs.last(), convention, path);
            if !after.holds(path) {
                assert(all == before.push(path));
                assert(all[all.len() - 1] == path);
            }
        }
    }
}

/// No path of the backlog is lost in silence: a path that was found on disk
/// at start is, after whatever reaches the queue, pending, in hand or known
/// to the store, or it was given up.
pub proof fn lemma_backlog_is_never_lost(
    filepaths: Seq<Seq<char>>,
    known: Seq<Seq<char>>,
    inputs: Seq<Input>,
    convention: Convention,
    path: Seq<char>,
)
    requires
        filepaths.contains(path),
    ensures
        run(seeded(filepaths, known), inputs, convention).holds(path) || given_up_during(
            seeded(filepaths, known),
            inputs,
            convention,
        ).contains(path),
{
    lemma_seeded(filepaths, known);
    assert(seeded(filepaths, known).holds(path));
    lemma_no_path_lost(seeded(filepaths, known), inputs, convention, path);
}

/// The offers that a watch event makes of `paths`, as inputs.
pub open spec fn offers(paths: Seq<Seq<char>>) -> Seq<Input> {
    Seq::new(paths.len(), |i: int| Input::Offer(paths[i]))
}

/// A watch event is a run of offers.
pub proof fn lemma_offered_is_run(state: QueueState, paths: Seq<Seq<char>>, convention: Convention)
    ensures
        offered(state, paths) == run(state, offers(paths), convention),
    decreases paths.len(),
{
    if paths.len() > 0 {
        lemma_offered_is_run(state, paths.drop_last(), convention);
        assert(offers(paths).drop_last() =~= offers(paths.drop_last()));
        assert(offers(paths).last() == Input::Offer(paths.last()));
    }
}

/// One input keeps a path accounted for, unless it ends the attempt on that
/// path by giving it up.
pub proof fn lemma_apply_keeps_hold(
    state: QueueState,
    input: Input,
    convention: Convention,
    path: Seq<char>,
)
    requires
        state.wf(),
        state.holds(path),
    ensures
        apply(state, input, convention).holds(path) || (concluded_by(state, input, convention)
            matches Some(end) && end.0 == path && end.1.disposition() == Disposition::Dropped),
{
    let after = apply(state, input, convention);
    if state.pending.contains(path) {
        let i = choose|i: int| 0 <= i < state.pending.len() && state.pending[i] == path;
        if after.pending.len() == state.pending.len() + 1 {
            // One path was added, at one end or the other.
            assert(after.pending[i] == path || after.pending[i + 1] == path);
        } else if after.pending.len() == state.pending.len() {
            assert(after.pending[i] == path);
        } else {
            if i < state.pending.len() - 1 {
                assert(after.pending[i] == path);
            }
        }
    } else if state.in_hand(path) {
        match input {
            Input::Offer(_) => {},
            Input::Event(event) => {
                if let ActionView::Pause(outcome) = step(state, event, convention).1 {
                    if outcome.disposition() == Disposition::Requeued {
                        assert(after.pending[0] == path);
                    }
                }
            },
        }
    }
}

} // verus!
