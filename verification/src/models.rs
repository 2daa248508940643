//! The record of one processed video.

use vstd::prelude::*;

verus! {

/// What is stored about a video once it has been processed.
#[derive(Debug, Clone, PartialEq, Eq)]
pub struct DBRecord {
    /// The path of the video file: the key of the record.
    pub filepath: String,
    /// The moment the recording began, as `YYYY-MM-DDTHH:MM:SS`.
    pub timestamp: String,
    /// The detections found in the video, in serialized form.
    pub detections: String,
}

/// A record with its three texts as sequences of characters.
pub struct RecordView {
    pub filepath: Seq<char>,
    pub timestamp: Seq<char>,
    pub detections: Seq<char>,
}

impl View for DBRecord {
    type V = RecordView;

    open spec fn view(&self) -> RecordView {
        RecordView {
            filepath: self.filepath@,
            timestamp: self.timestamp@,
            detections: self.detections@,
        }
    }
}

impl DBRecord {
    /// A record of the three texts.
    pub fn new(filepath: &str, timestamp: &str, detections: &str) -> (record: DBRecord)
        ensures
            record@ == (RecordView {
                filepath: filepath@,
                timestamp: timestamp@,
                detections: detections@,
            }),
    {
        DBRecord {
            filepath: filepath.to_owned(),
            timestamp: timestamp.to_owned(),
            detections: detections.to_owned(),
        }
    }
}

} // verus!
