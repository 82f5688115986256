use portable_music_player::fs::{decode_step, DecodeError, DecodeStep, DummyTimesource, FeedOutcome};

#[test]
fn failed_read_ends_loading() {
    assert_eq!(decode_step(true, FeedOutcome::Success), DecodeStep::Failed(DecodeError::Read));
}

#[test]
fn feed_outcomes_map_to_steps() {
    assert_eq!(decode_step(false, FeedOutcome::Consumed), DecodeStep::Continue);
    assert_eq!(decode_step(false, FeedOutcome::Success), DecodeStep::Done);
    assert_eq!(
        decode_step(false, FeedOutcome::OverFull),
        DecodeStep::Failed(DecodeError::Overfull)
    );
    assert_eq!(
        decode_step(false, FeedOutcome::DeserError),
        DecodeStep::Failed(DecodeError::DeserError)
    );
}

#[test]
fn dummy_timesource_stamps_the_epoch() {
    let t = DummyTimesource.get_timestamp();
    assert_eq!(t.year_since_1970, 0);
    assert_eq!(t.zero_indexed_month, 0);
    assert_eq!(t.zero_indexed_day, 0);
    assert_eq!(t.hours, 0);
    assert_eq!(t.minutes, 0);
    assert_eq!(t.seconds, 0);
}
