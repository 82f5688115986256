use portable_music_player::visualizer::{
    level, spectrum, Visualizer, FULL_SCALE, HISTORY_LEN, LEVEL_MAX, SPECTRUM_BINS,
};

#[test]
fn new_visualizer_has_no_window() {
    let v = Visualizer::new();
    assert!(!v.is_full());
    assert!(v.read().is_none());
}

#[test]
fn ring_holds_latest_samples_in_push_order() {
    let mut v = Visualizer::new();
    let samples: Vec<i16> = (0..200).map(|i| i as i16).collect();
    v.extend_with_chan(&samples[..50], 1);
    assert!(v.read().is_none());
    v.extend_with_chan(&samples[50..], 1);
    assert!(v.is_full());
    let w = v.read().unwrap();
    assert_eq!(w.len(), HISTORY_LEN);
    let expected: Vec<i16> = (72..200).map(|i| i as i16).collect();
    assert_eq!(w, expected);
}

#[test]
fn ring_fills_exactly_at_capacity() {
    let mut v = Visualizer::new();
    let samples = vec![7i16; HISTORY_LEN - 1];
    v.extend_with_chan(&samples, 1);
    assert!(!v.is_full());
    v.extend_with_chan(&[9], 1);
    assert!(v.is_full());
    let w = v.read().unwrap();
    assert_eq!(w[0], 7);
    assert_eq!(w[HISTORY_LEN - 1], 9);
}

#[test]
fn downmix_averages_each_channel_group() {
    let mut v = Visualizer::new();
    // Pairs average to 3, -3 (rounded toward zero) and 100.
    let mut pcm = vec![2i16, 4, -3, -4, 100, 100];
    let filler = vec![0i16; 2 * (HISTORY_LEN - 3)];
    let mut all = filler.clone();
    all.append(&mut pcm);
    v.extend_with_chan(&all, 2);
    let w = v.read().unwrap();
    assert_eq!(&w[HISTORY_LEN - 3..], &[3, -3, 100]);
}

#[test]
fn downmix_divides_partial_group_by_channel_count() {
    let mut v = Visualizer::new();
    let filler = vec![0i16; HISTORY_LEN - 1];
    v.extend_with_chan(&filler, 1);
    v.extend_with_chan(&[30, 30, 30, 30, 30], 3);
    let w = v.read().unwrap();
    assert_eq!(w[HISTORY_LEN - 2], 30);
    assert_eq!(w[HISTORY_LEN - 1], 20);
}

#[test]
fn downmix_of_extreme_samples_stays_in_range() {
    let mut v = Visualizer::new();
    let pcm = vec![i16::MIN; 2 * HISTORY_LEN];
    v.extend_with_chan(&pcm, 2);
    assert_eq!(v.read().unwrap(), vec![i16::MIN; HISTORY_LEN]);
    let pcm = vec![i16::MAX; 2 * HISTORY_LEN];
    v.extend_with_chan(&pcm, 2);
    assert_eq!(v.read().unwrap(), vec![i16::MAX; HISTORY_LEN]);
}

#[test]
fn spectrum_is_silent_until_the_ring_is_full() {
    let v = Visualizer::default();
    let bins: Option<Vec<i64>> = v.read().map(|_| vec![5; SPECTRUM_BINS]);
    let s = spectrum(bins.as_ref(), 44100);
    assert_eq!(s, vec![0u16; SPECTRUM_BINS]);
}

#[test]
fn window_is_the_same_on_an_unchanged_ring() {
    let mut v = Visualizer::new();
    let samples: Vec<i16> = (0..300).map(|i| (i * 37 % 1000) as i16).collect();
    v.extend_with_chan(&samples, 1);
    let a = v.read();
    let b = v.read();
    assert!(a.is_some());
    assert_eq!(a, b);
}

#[test]
fn level_is_normalised_by_nyquist_and_clamped() {
    // A bin's real part is on the 16-bit sample scale: FULL_SCALE stands for 1.
    let one = FULL_SCALE as i64;
    assert_eq!(level(22050 * one, 44100), LEVEL_MAX);
    assert_eq!(level(11025 * one, 44100), 500);
    assert_eq!(level(22050, 44100), 0);
    assert_eq!(level(0, 44100), 0);
    assert_eq!(level(-5000 * one, 44100), 0);
    assert_eq!(level(i64::MAX, 44100), LEVEL_MAX);
    assert_eq!(level(100 * one, 2000), 100);
}

#[test]
fn spectrum_keeps_bin_order() {
    let one = FULL_SCALE as i64;
    let bins: Vec<i64> = vec![0, 4410 * one, 11025 * one, 22050 * one, 50000 * one, -1];
    let s = spectrum(Some(&bins), 44100);
    assert_eq!(s, vec![0, 200, 500, 1000, 1000, 0]);
}

#[test]
fn empty_push_leaves_the_ring_unchanged() {
    let mut v = Visualizer::new();
    let samples: Vec<i16> = (0..130).map(|i| i as i16).collect();
    v.extend_with_chan(&samples, 1);
    let before = v.read();
    v.extend_with_chan(&[], 2);
    assert_eq!(v.read(), before);
}
