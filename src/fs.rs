use vstd::prelude::*;

verus! {

/// Errors of loading a framed record from storage.
#[derive(Debug, Clone, Copy, PartialEq, Eq, Structural)]
pub enum DecodeError {
    /// The file could not be read.
    Read,
    /// A frame outgrew the accumulator.
    Overfull,
    /// A complete frame did not deserialize.
    DeserError,
}

/// What the frame accumulator reported for one chunk of bytes.
#[derive(Debug, Clone, Copy, PartialEq, Eq, Structural)]
pub enum FeedOutcome {
    /// All bytes were taken and no frame is complete yet.
    Consumed,
    /// The frame under construction no longer fits.
    OverFull,
    /// A frame completed but did not deserialize.
    DeserError,
    /// A frame completed and deserialized.
    Success,
}

/// What the load loop does after one read and one feed.
#[derive(Debug, Clone, Copy, PartialEq, Eq, Structural)]
pub enum DecodeStep {
    /// Read the next chunk.
    Continue,
    /// The record is complete.
    Done,
    /// Loading failed.
    Failed(DecodeError),
}

/// Decides the load loop's next move: a failed read ends it with `Read`;
/// otherwise the accumulator's outcome decides (`fed` is ignored then).
pub fn decode_step(read_failed: bool, fed: FeedOutcome) -> (r: DecodeStep)
    ensures
        read_failed ==> r == DecodeStep::Failed(DecodeError::Read),
        !read_failed ==> r == match fed {
            FeedOutcome::Consumed => DecodeStep::Continue,
            FeedOutcome::OverFull => DecodeStep::Failed(DecodeError::Overfull),
            FeedOutcome::DeserError => DecodeStep::Failed(DecodeError::DeserError),
            FeedOutcome::Success => DecodeStep::Done,
        },
{
    if read_failed {
        return DecodeStep::Failed(DecodeError::Read);
    }
    match fed {
        FeedOutcome::Consumed => DecodeStep::Continue,
        FeedOutcome::OverFull => DecodeStep::Failed(DecodeError::Overfull),
        FeedOutcome::DeserError => DecodeStep::Failed(DecodeError::DeserError),
        FeedOutcome::Success => DecodeStep::Done,
    }
}

/// A calendar time stamp, as stored with a file.
#[derive(Debug, Clone, Copy, PartialEq, Eq, Structural)]
pub struct Timestamp {
    pub year_since_1970: u8,
    pub zero_indexed_month: u8,
    pub zero_indexed_day: u8,
    pub hours: u8,
    pub minutes: u8,
    pub seconds: u8,
}

/// A time source with no clock behind it: files are stamped at the epoch.
#[derive(Debug, Clone, Copy, PartialEq, Eq, Structural, Default)]
pub struct DummyTimesource;

impl DummyTimesource {
    /// The epoch, 1970-01-01 00:00:00.
    pub fn get_timestamp(&self) -> (r: Timestamp)
        ensures
            r == (Timestamp {
                year_since_1970: 0,
                zero_indexed_month: 0,
                zero_indexed_day: 0,
                hours: 0,
                minutes: 0,
                seconds: 0,
            }),
    {
        Timestamp {
            year_since_1970: 0,
            zero_indexed_month: 0,
            zero_indexed_day: 0,
            hours: 0,
            minutes: 0,
            seconds: 0,
        }
    }
}

} // verus!
