use maestro_audio::normalize::to_mono_16k;

#[test]
fn mono_at_target_rate_is_identity() {
    let input: Vec<i16> = vec![0, 1, -1, 32767, -32768, 1234];
    assert_eq!(to_mono_16k(&input, 1, 16000), input);
}

#[test]
fn empty_input_gives_empty_output() {
    assert!(to_mono_16k(&[], 2, 16000).is_empty());
    assert!(to_mono_16k(&[], 1, 44100).is_empty());
}

#[test]
fn stereo_is_averaged_and_partial_group_dropped() {
    let input: Vec<i16> = vec![10, 20, -10, -21, 5];
    assert_eq!(to_mono_16k(&input, 2, 16000), vec![15, -15]);
}

#[test]
fn upsampling_interpolates_linearly() {
    let input: Vec<i16> = vec![0, 100, 200];
    assert_eq!(to_mono_16k(&input, 1, 8000), vec![0, 50, 100, 150, 200, 200]);
}

#[test]
fn downsampling_picks_source_positions() {
    let input: Vec<i16> = vec![7, 1, 2, 9, 3, 4];
    assert_eq!(to_mono_16k(&input, 1, 48000), vec![7, 9]);
}

#[test]
fn resampled_length_is_floor_of_ratio() {
    let input: Vec<i16> = vec![100; 441 * 2];
    let out = to_mono_16k(&input, 2, 44100);
    assert_eq!(out.len(), 441 * 16000 / 44100);
    assert!(out.iter().all(|&s| s == 100));
    let odd: Vec<i16> = vec![0; 1000];
    assert_eq!(to_mono_16k(&odd, 1, 22050).len(), 1000 * 16000 / 22050);
}

#[test]
fn extreme_values_stay_in_range() {
    let input: Vec<i16> = vec![32767, -32768, 32767, -32768];
    assert_eq!(to_mono_16k(&input, 1, 12000).len(), 5);
    assert_eq!(to_mono_16k(&[32767, 32767, -32768, -32768], 2, 16000), vec![32767, -32768]);
}
