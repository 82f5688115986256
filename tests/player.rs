use portable_music_player::player::{
    AdvanceStep, FrameInfo, Player, PlayerError, PushOutcome, Sink, Track, TrackDecoder,
    DEFAULT_VOLUME, RESIDUAL_CAPACITY, TICKS_PER_SECOND, VOLUME_MAX,
};
use portable_music_player::visualizer::HISTORY_LEN;

fn track(title: &str) -> TrackDecoder {
    TrackDecoder::new(Track { title: title.to_string() })
}

fn playing(title: &str) -> Player {
    let mut p = Player::new(Sink::new());
    p.play(track(title));
    p
}

#[test]
fn sink_starts_at_half_volume_and_clamps() {
    let mut s = Sink::new();
    assert_eq!(s.get_volume(), DEFAULT_VOLUME);
    s.set_volume(2000);
    assert_eq!(s.get_volume(), VOLUME_MAX);
    s.set_volume(250);
    assert_eq!(s.get_volume(), 250);
}

#[test]
fn sink_scales_and_encodes_big_endian() {
    let s = Sink::new();
    let bytes = s.write_frame(&[1000, -1000, 3, -3, i16::MIN, i16::MAX]);
    // 500 = 0x01F4, -500 = 0xFE0C, 1, -1, -16384 = 0xC000, 16383 = 0x3FFF
    assert_eq!(
        bytes,
        vec![0x01, 0xF4, 0xFE, 0x0C, 0x00, 0x01, 0xFF, 0xFF, 0xC0, 0x00, 0x3F, 0xFF]
    );
}

#[test]
fn sink_at_full_volume_keeps_samples() {
    let mut s = Sink::new();
    s.set_volume(VOLUME_MAX);
    assert_eq!(s.write_frame(&[0x1234, -2]), vec![0x12, 0x34, 0xFF, 0xFE]);
    s.set_volume(0);
    assert_eq!(s.write_frame(&[0x1234]), vec![0, 0]);
}

#[test]
fn push_progress_and_bus_faults() {
    assert_eq!(Sink::write(5, PushOutcome::Queued(3)), Ok(2));
    assert_eq!(Sink::write(5, PushOutcome::Queued(5)), Ok(0));
    assert_eq!(
        Sink::write(5, PushOutcome::Queued(6)),
        Err(PlayerError::HardwareBusError)
    );
    assert_eq!(Sink::write(5, PushOutcome::Fault), Err(PlayerError::HardwareBusError));
}

#[test]
fn first_frame_of_stereo_stream() {
    let mut p = playing("one");
    assert_eq!(p.next(false), AdvanceStep::Read);
    let chunk = vec![0xAAu8; 128];
    assert_eq!(p.feed(&chunk), Ok(()));
    assert_eq!(p.pending().len(), 128);
    let pcm: Vec<i16> = (0..1152).map(|i| if i % 2 == 0 { 100 } else { 300 }).collect();
    let frame = FrameInfo { samples_produced: 576, channels: 2, sample_rate: 44100 };
    let before = p.elapsed().unwrap();
    let bytes = p.decoded(128, Some(frame), &pcm).unwrap();
    // One frame of 1152 interleaved samples, two bytes each.
    assert_eq!(bytes.len(), 2 * 1152);
    assert_eq!(&bytes[..4], &[0x00, 0x32, 0x00, 0x96]);
    let delta = p.elapsed().unwrap() - before;
    assert_eq!(delta, 9_216_000);
    assert_eq!(delta * 44100, 576 * TICKS_PER_SECOND);
    assert!(p.pending().is_empty());
    // 576 mono samples reached the ring, which keeps the latest of them.
    let w = p.sample_visualizer().unwrap();
    assert_eq!(w, vec![200i16; HISTORY_LEN]);
    assert!(p.is_playing());
}

#[test]
fn frame_adds_its_duration() {
    let mut p = playing("two");
    p.feed(&[1, 2, 3]).unwrap();
    let pcm = vec![0i16; 1152];
    let f = FrameInfo { samples_produced: 1152, channels: 1, sample_rate: 48000 };
    p.decoded(1, Some(f), &pcm).unwrap();
    assert_eq!(p.elapsed(), Some(1152 * (TICKS_PER_SECOND / 48000)));
    p.decoded(2, Some(f), &pcm).unwrap();
    assert_eq!(p.elapsed(), Some(2 * 1152 * (TICKS_PER_SECOND / 48000)));
}

#[test]
fn zero_byte_read_is_a_benign_tick() {
    let mut p = playing("three");
    assert_eq!(p.next(false), AdvanceStep::Read);
    assert_eq!(p.feed(&[]), Ok(()));
    assert!(p.pending().is_empty());
    assert!(p.is_playing());
    assert_eq!(p.elapsed(), Some(0));
    // Nothing pending and nothing decoded is no failure either.
    assert_eq!(p.decoded(0, None, &[]), Ok(vec![]));
    assert!(p.is_playing());
}

#[test]
fn end_of_file_makes_the_player_idle() {
    let mut p = playing("four");
    p.feed(&[9; 10]).unwrap();
    assert_eq!(p.decoded(10, None, &[]), Ok(vec![]));
    assert_eq!(p.next(true), AdvanceStep::Finished);
    assert!(!p.is_playing());
    assert_eq!(p.elapsed(), None);
    assert_eq!(p.next(true), AdvanceStep::Idle);
    assert_eq!(p.next(false), AdvanceStep::Idle);
    assert_eq!(p.feed(&[1, 2]), Ok(()));
    assert!(p.pending().is_empty());
    assert!(p.sample_visualizer().is_none());
}

#[test]
fn second_play_discards_the_first_track() {
    let mut p = playing("first");
    p.feed(&[1, 2, 3, 4]).unwrap();
    p.decoded(1, None, &[]).unwrap();
    assert_eq!(p.pending(), &[2, 3, 4]);
    p.play(track("second"));
    assert!(p.pending().is_empty());
    assert_eq!(p.elapsed(), Some(0));
    assert_eq!(p.decoded(0, None, &[]), Ok(vec![]));
    p.feed(&[7]).unwrap();
    assert_eq!(p.pending(), &[7]);
}

#[test]
fn no_progress_on_input_is_malformed() {
    let mut p = playing("bad");
    p.feed(&[1, 2, 3]).unwrap();
    assert_eq!(p.decoded(0, None, &[]), Err(PlayerError::MalformedAudioStream));
    assert!(!p.is_playing());
}

#[test]
fn impossible_frames_are_malformed() {
    let pcm = vec![0i16; 4];
    let cases = [
        (4usize, None),
        (1, Some(FrameInfo { samples_produced: 2, channels: 0, sample_rate: 44100 })),
        (1, Some(FrameInfo { samples_produced: 2, channels: 2, sample_rate: 0 })),
        (1, Some(FrameInfo { samples_produced: 3, channels: 2, sample_rate: 44100 })),
    ];
    for (consumed, frame) in cases {
        let mut p = playing("bad");
        p.feed(&[1, 2, 3]).unwrap();
        assert_eq!(p.decoded(consumed, frame, &pcm), Err(PlayerError::MalformedAudioStream));
        assert!(!p.is_playing());
    }
}

#[test]
fn residual_overflow_aborts_the_track() {
    let mut p = playing("big");
    let chunk = vec![0u8; RESIDUAL_CAPACITY];
    assert_eq!(p.feed(&chunk), Ok(()));
    assert_eq!(p.feed(&[1]), Err(PlayerError::ResidualOverflow));
    assert!(!p.is_playing());
}

#[test]
fn volume_applies_to_frames() {
    let mut p = playing("loud");
    p.set_volume(VOLUME_MAX);
    assert_eq!(p.volume(), VOLUME_MAX);
    p.feed(&[0]).unwrap();
    let f = FrameInfo { samples_produced: 1, channels: 1, sample_rate: 8000 };
    assert_eq!(p.decoded(1, Some(f), &[-2, 5]), Ok(vec![0xFF, 0xFE]));
}

#[test]
fn track_decoder_reports_its_track() {
    let d = track("named");
    assert_eq!(d.track().title, "named");
    assert_eq!(d.track(), &Track { title: "named".to_string() });
    assert_eq!(d.elapsed(), 0);
    assert!(d.pending().is_empty());
}

#[test]
fn stop_makes_the_player_idle() {
    let mut p = playing("stopped");
    p.feed(&[1]).unwrap();
    p.stop();
    assert!(!p.is_playing());
    assert_eq!(p.next(false), AdvanceStep::Idle);
}

#[test]
fn failed_read_aborts_the_track() {
    let mut p = playing("unreadable");
    assert_eq!(p.next(false), AdvanceStep::Read);
    assert_eq!(p.read(None), Err(PlayerError::FileSystemError));
    assert!(!p.is_playing());
    assert_eq!(p.read(None), Ok(()));
}

#[test]
fn read_bytes_are_fed() {
    let mut p = playing("readable");
    assert_eq!(p.read(Some(&[4, 5])), Ok(()));
    assert_eq!(p.pending(), &[4, 5]);
    assert_eq!(p.read(Some(&[])), Ok(()));
    assert_eq!(p.pending(), &[4, 5]);
    assert!(p.is_playing());
}

#[test]
fn bus_fault_aborts_the_track() {
    let mut p = playing("faulty");
    assert_eq!(p.pushed(10, PushOutcome::Queued(4)), Ok(6));
    assert!(p.is_playing());
    assert_eq!(p.pushed(6, PushOutcome::Fault), Err(PlayerError::HardwareBusError));
    assert!(!p.is_playing());
}

#[test]
fn overlong_push_is_a_bus_error() {
    let mut p = playing("overlong");
    assert_eq!(p.pushed(3, PushOutcome::Queued(4)), Err(PlayerError::HardwareBusError));
    assert!(!p.is_playing());
}
