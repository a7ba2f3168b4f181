use droidvm::underrun::UnderrunConcealer;

fn pcm(samples: &[i16]) -> Vec<u8> {
    samples.iter().flat_map(|s| s.to_le_bytes()).collect()
}

fn samples(pcm: &[u8]) -> Vec<i16> {
    pcm.chunks(2).map(|b| i16::from_le_bytes([b[0], b[1]])).collect()
}

fn play(c: &mut UnderrunConcealer, period: &[i16]) -> Vec<i16> {
    let bytes = pcm(period);
    c.scratch_mut().copy_from_slice(&bytes);
    samples(c.commit_good_period(bytes.len()))
}

#[test]
fn only_whole_frames_of_16_bits_are_concealed() {
    assert!(UnderrunConcealer::new(2, 48_000, 960, 2).is_some());
    assert!(UnderrunConcealer::new(2, 48_000, 960, 4).is_none());
    assert!(UnderrunConcealer::new(0, 48_000, 960, 2).is_none());
    assert!(UnderrunConcealer::new(2, 0, 960, 2).is_none());
    assert!(UnderrunConcealer::new(2, 48_000, 0, 2).is_none());
    assert!(UnderrunConcealer::new(2, 48_000, 962, 2).is_none());
}

#[test]
fn nothing_is_invented_before_anything_was_played() {
    let mut c = UnderrunConcealer::new(1, 1_000, 8, 2).unwrap();
    assert_eq!((c.period_bytes(), c.frames()), (8, 4));
    assert!(c.conceal(1).is_none());
}

#[test]
fn a_hole_repeats_the_last_pitch_period_and_fades() {
    let mut c = UnderrunConcealer::new(1, 1_000, 8, 2).unwrap();
    assert_eq!(play(&mut c, &[100, 200, 300, 400]), vec![100, 200, 300, 400]);
    assert_eq!(samples(c.conceal(2).unwrap()), vec![300, 366, 249, 300]);
    assert_eq!(samples(c.conceal(2).unwrap()), vec![199, 233, 150, 166]);
    assert_eq!(samples(c.conceal(2).unwrap()), vec![99, 100, 49, 33]);
    // Two milliseconds of the next period are blended over the tail.
    assert_eq!(play(&mut c, &[1000; 4]), vec![399, 699, 1000, 1000]);
    assert_eq!(play(&mut c, &[-7; 4]), vec![-7; 4]);
}

#[test]
fn a_negative_sample_fades_towards_zero() {
    let mut c = UnderrunConcealer::new(1, 1_000, 8, 2).unwrap();
    play(&mut c, &[-32768, -1, 32767, -300]);
    let out = samples(c.conceal(4).unwrap());
    assert_eq!(out[0], -32768);
    assert_eq!(out[1], -1);
    assert_eq!(out[2], 27305);
    assert_eq!(out[3], -225);
}

#[test]
fn a_long_hole_is_silent() {
    let mut c = UnderrunConcealer::new(1, 1_000, 8, 2).unwrap();
    play(&mut c, &[500; 4]);
    for _ in 0..3 {
        assert!(c.conceal(3).is_some());
    }
    assert!(c.conceal(3).is_none());
    assert!(c.conceal(3).is_none());
    // The audio comes back out of silence.
    assert_eq!(play(&mut c, &[300; 4]), vec![99, 199, 300, 300]);
}

#[test]
fn a_short_period_is_passed_on_and_forgets_the_history() {
    let mut c = UnderrunConcealer::new(1, 1_000, 8, 2).unwrap();
    play(&mut c, &[500; 4]);
    c.scratch_mut()[..4].copy_from_slice(&pcm(&[7, 8]));
    assert_eq!(samples(c.commit_good_period(4)), vec![7, 8]);
    assert!(c.conceal(1).is_none());
}

#[test]
fn the_pitch_is_searched_on_the_sum_of_the_channels() {
    let mut c = UnderrunConcealer::new(2, 1_000, 48, 2).unwrap();
    let period: Vec<i16> = (0..24).map(|i| i as i16 * 2500 - 30000).collect();
    play(&mut c, &period);
    let p = c.pitch_search().unwrap();
    assert_eq!((p.min_lag, p.max_lag), (2, 6));
    assert_eq!(p.mono.len(), 12);
    assert_eq!(p.mono[0], -57500);
    assert_eq!(p.mono[11], 52500);
    assert!(UnderrunConcealer::new(1, 1_000, 8, 2).unwrap().pitch_search().is_none());
    assert_eq!(
        UnderrunConcealer::new(1, 8_000, 1_000, 2).unwrap().pitch_search().map(|p| p.max_lag),
        Some(160)
    );
}
