//! The steps by which one video file is processed.
//!
//! A file is first watched until its size stands still, then handed to the
//! detection oracle; its timestamp is read from its path, and the record is
//! stored. The work outside happens elsewhere: here is what follows from
//! each of its results.

use crate::codec::{extract_datetime_from_path, timestamp_of_path, Convention, TimestampError};
use crate::models::{DBRecord, RecordView};
use vstd::prelude::*;

verus! {

/// What an attempt on a file is waiting for.
#[derive(Clone, Copy, Debug, PartialEq, Eq, Structural)]
pub enum Stage {
    /// Whether the file's size stands still.
    AwaitStability,
    /// What the detection oracle finds in the file.
    AwaitDetection,
    /// Whether the store took the record.
    AwaitInsertion,
}

/// How an attempt on a file ended.
#[derive(Clone, Copy, Debug, PartialEq, Eq, Structural)]
pub enum Outcome {
    /// The record is stored.
    Persisted,
    /// The file was still being written, or could not be examined.
    Unstable,
    /// The detection oracle failed.
    OracleFailed,
    /// The store did not take the record.
    StoreFailed,
    /// The path encodes no timestamp.
    Malformed(TimestampError),
}

/// What becomes of a file after an attempt.
#[derive(Clone, Copy, Debug, PartialEq, Eq, Structural)]
pub enum Disposition {
    /// It is done: its record is stored.
    Persisted,
    /// It goes back into the queue for a later attempt.
    Requeued,
    /// It is given up: no later attempt could succeed.
    Dropped,
}

impl Outcome {
    /// What becomes of the file: a failure that may pass is tried again, a
    /// name that encodes no timestamp is given up.
    pub open spec fn disposition(self) -> Disposition {
        match self {
            Outcome::Persisted => Disposition::Persisted,
            Outcome::Unstable => Disposition::Requeued,
            Outcome::OracleFailed => Disposition::Requeued,
            Outcome::StoreFailed => Disposition::Requeued,
            Outcome::Malformed(_) => Disposition::Dropped,
        }
    }

    /// What becomes of the file.
    pub fn dispose(&self) -> (d: Disposition)
        ensures
            d == self.disposition(),
    {
        match self {
            Outcome::Persisted => Disposition::Persisted,
            Outcome::Unstable => Disposition::Requeued,
            Outcome::OracleFailed => Disposition::Requeued,
            Outcome::StoreFailed => Disposition::Requeued,
            Outcome::Malformed(_) => Disposition::Dropped,
        }
    }
}

/// A result of the work done outside for the file in hand.
#[derive(Clone, Debug, PartialEq, Eq)]
pub enum Report {
    /// Whether the file's size stood still.
    Stability(bool),
    /// The serialized detections, or `None` where the oracle failed.
    Detection(Option<String>),
    /// Whether the store took the record.
    Insertion(bool),
}

/// A report with its text as a sequence of characters.
pub enum ReportView {
    Stability(bool),
    Detection(Option<Seq<char>>),
    Insertion(bool),
}

impl View for Report {
    type V = ReportView;

    open spec fn view(&self) -> ReportView {
        match self {
            Report::Stability(stable) => ReportView::Stability(*stable),
            Report::Detection(Some(found)) => ReportView::Detection(Some(found@)),
            Report::Detection(None) => ReportView::Detection(None),
            Report::Insertion(stored) => ReportView::Insertion(*stored),
        }
    }
}

/// What to do next for the file in hand.
#[derive(Clone, Debug, PartialEq, Eq)]
pub enum Directive {
    /// Hand the file to the detection oracle.
    Detect,
    /// Store this record.
    Insert(DBRecord),
    /// End the attempt with this outcome.
    Conclude(Outcome),
    /// The report does not answer what the attempt waits for: go on waiting.
    Ignore,
}

/// A directive with its record's texts as sequences of characters.
pub enum DirectiveView {
    Detect,
    Insert(RecordView),
    Conclude(Outcome),
    Ignore,
}

impl View for Directive {
    type V = DirectiveView;

    open spec fn view(&self) -> DirectiveView {
        match self {
            Directive::Detect => DirectiveView::Detect,
            Directive::Insert(record) => DirectiveView::Insert(record@),
            Directive::Conclude(outcome) => DirectiveView::Conclude(*outcome),
            Directive::Ignore => DirectiveView::Ignore,
        }
    }
}

/// What follows from `report` for the file at `filepath`, whose attempt is
/// at `stage`.
pub open spec fn directive_for(
    filepath: Seq<char>,
    stage: Stage,
    report: ReportView,
    convention: Convention,
) -> DirectiveView {
    match (stage, report) {
        (Stage::AwaitStability, ReportView::Stability(true)) => DirectiveView::Detect,
        (Stage::AwaitStability, ReportView::Stability(false)) => DirectiveView::Conclude(
            Outcome::Unstable,
        ),
        (Stage::AwaitDetection, ReportView::Detection(None)) => DirectiveView::Conclude(
            Outcome::OracleFailed,
        ),
        (Stage::AwaitDetection, ReportView::Detection(Some(found))) => match timestamp_of_path(
            filepath,
            convention,
        ) {
            Ok(timestamp) => DirectiveView::Insert(
                RecordView { filepath, timestamp, detections: found },
            ),
            Err(e) => DirectiveView::Conclude(Outcome::Malformed(e)),
        },
        (Stage::AwaitInsertion, ReportView::Insertion(true)) => DirectiveView::Conclude(
            Outcome::Persisted,
        ),
        (Stage::AwaitInsertion, ReportView::Insertion(false)) => DirectiveView::Conclude(
            Outcome::StoreFailed,
        ),
        _ => DirectiveView::Ignore,
    }
}

/// Decides what to do next for the file at `filepath`, whose attempt is at
/// `stage`, now that `report` has come in.
pub fn process_filepath(filepath: &str, stage: Stage, report: Report, convention: Convention) -> (d:
    Directive)
    ensures
        d@ == directive_for(filepath@, stage, report@, convention),
{
    match report {
        Report::Stability(stable) => match stage {
            Stage::AwaitStability => if stable {
                Directive::Detect
            } else {
                Directive::Conclude(Outcome::Unstable)
            },
            _ => Directive::Ignore,
        },
        Report::Detection(found) => match stage {
            Stage::AwaitDetection => match found {
                None => Directive::Conclude(Outcome::OracleFailed),
                Some(detections) => match extract_datetime_from_path(filepath, convention) {
                    Ok(timestamp) => Directive::Insert(
                        DBRecord { filepath: filepath.to_owned(), timestamp, detections },
                    ),
                    Err(e) => Directive::Conclude(Outcome::Malformed(e)),
                },
            },
            _ => Directive::Ignore,
        },
        Report::Insertion(stored) => match stage {
            Stage::AwaitInsertion => if stored {
                Directive::Conclude(Outcome::Persisted)
            } else {
                Directive::Conclude(Outcome::StoreFailed)
            },
            _ => Directive::Ignore,
        },
    }
}

} // verus!
