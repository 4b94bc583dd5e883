use thoughtcast::levels::{get_audio_levels, window_level, MAX_LEVELS, SAMPLES_PER_LEVEL};

#[test]
fn test_calculate_rms_amplitude_silence() {
    let samples: Vec<i16> = vec![0; 1000];
    let rms = window_level(&samples, 0, 1000);
    assert_eq!(rms, 0, "Silence should produce a zero level");
}

#[test]
fn test_calculate_rms_amplitude_full_scale() {
    // Full-scale signal (all samples at maximum)
    let samples: Vec<i16> = vec![i16::MAX; 1000];
    let rms = window_level(&samples, 0, 1000);
    assert_eq!(rms, 1000, "Full-scale signal should peg the meter (capped)");
}

#[test]
fn test_calculate_rms_amplitude_sine_wave() {
    // Simulate a sine wave at low amplitude (for sensitive detection)
    let samples: Vec<i16> = (0..1000)
        .map(|i| (0.03 * (i as f64 * 0.1).sin() * 32767.0) as i16)
        .collect();

    let rms = window_level(&samples, 0, 1000);

    // RMS of a sine wave with amplitude 0.03 is about 0.021 of full scale;
    // normalized by the speech sensitivity that is about 0.42 of the meter.
    assert!(rms > 300 && rms < 600, "Sine wave RMS should be in expected range, got {}", rms);
}

#[test]
fn test_calculate_rms_amplitude_empty() {
    let samples: Vec<i16> = vec![];
    let levels = get_audio_levels(&samples);
    assert!(levels.iter().all(|&l| l == 0), "Empty samples should produce zero levels");
}

#[test]
fn test_get_audio_levels_insufficient_samples() {
    let samples: Vec<i16> = vec![16384; 100];
    let levels = get_audio_levels(&samples);

    assert_eq!(levels.len(), MAX_LEVELS, "Should return MAX_LEVELS elements");
    assert!(levels.iter().all(|&l| l == 0), "Should be all zeros when insufficient samples");
}

#[test]
fn test_get_audio_levels_full_history() {
    // Create enough samples for full history
    let total_samples = SAMPLES_PER_LEVEL * MAX_LEVELS;
    let samples: Vec<i16> = vec![16384; total_samples];

    let levels = get_audio_levels(&samples);

    assert_eq!(levels.len(), MAX_LEVELS, "Should return MAX_LEVELS elements");
    assert!(levels.iter().all(|&l| l > 0), "All levels should be non-zero");
}

#[test]
fn test_get_audio_levels_partial_history() {
    // Create samples for only 5 chunks
    let total_samples = SAMPLES_PER_LEVEL * 5;
    let samples: Vec<i16> = vec![16384; total_samples];

    let levels = get_audio_levels(&samples);

    assert_eq!(levels.len(), MAX_LEVELS, "Should return MAX_LEVELS elements");

    let non_zero_count = levels.iter().filter(|&&l| l > 0).count();
    assert_eq!(non_zero_count, 5, "Should have 5 non-zero levels");

    let zero_count = levels.iter().filter(|&&l| l == 0).count();
    assert_eq!(zero_count, 15, "Should have 15 zero levels (padding)");
}

#[test]
fn test_get_audio_levels_increasing_amplitude() {
    // Create samples with increasing amplitude
    let mut all_samples: Vec<i16> = Vec::new();

    for chunk_idx in 0..MAX_LEVELS {
        let amplitude = (chunk_idx as f64) * 0.05 * 32767.0;
        let chunk: Vec<i16> = (0..SAMPLES_PER_LEVEL).map(|_| amplitude as i16).collect();
        all_samples.extend(chunk);
    }

    let levels = get_audio_levels(&all_samples);

    // Verify levels are monotonically increasing (approximately)
    for i in 1..levels.len() {
        assert!(
            levels[i] as i32 >= levels[i - 1] as i32 - 10,
            "Levels should increase: levels[{}]={} < levels[{}]={}",
            i,
            levels[i],
            i - 1,
            levels[i - 1]
        );
    }
}

#[test]
fn test_get_audio_levels_uses_most_recent_windows() {
    // quiet history followed by one loud window: the loud one is last
    let mut samples: Vec<i16> = vec![0; SAMPLES_PER_LEVEL * 3];
    samples.extend(vec![16384i16; SAMPLES_PER_LEVEL]);
    let levels = get_audio_levels(&samples);
    assert_eq!(levels.len(), MAX_LEVELS);
    assert!(levels[MAX_LEVELS - 1] > 0);
    assert_eq!(levels[MAX_LEVELS - 2], 0);
}
