use thoughtcast::estimator::{
    estimate_transcription_time, EstimateConfidence, TranscriptionStat, TranscriptionStats,
};

fn create_test_stats(count: usize, ratio_permille: u64) -> TranscriptionStats {
    let mut stats = TranscriptionStats::default();
    for i in 0..count {
        let audio_duration_ms = 60000 * (i as u64 + 1); // 60 s, 120 s, 180 s...
        stats.stats.push(TranscriptionStat {
            audio_duration_ms,
            transcription_time_ms: audio_duration_ms * ratio_permille / 1000,
            timestamp: format!("2024-11-08T15:{}:00Z", i),
            model_path: "/test/model.bin".to_string(),
        });
    }
    stats
}

#[test]
fn test_insufficient_data_returns_none() {
    let stats = create_test_stats(5, 150); // Only 5 data points
    let estimate = estimate_transcription_time(&stats, 300000);

    assert!(estimate.is_none());
}

#[test]
fn test_estimate_with_low_confidence() {
    let stats = create_test_stats(15, 150); // 15 data points
    let estimate = estimate_transcription_time(&stats, 300000).unwrap();

    // 300 s at ratio 0.15 gives 45 s
    assert_eq!(estimate.estimated_ms, 45000);

    // Should be low confidence (10-20 data points)
    assert_eq!(estimate.confidence, EstimateConfidence::Low);
}

#[test]
fn test_estimate_with_medium_confidence() {
    let stats = create_test_stats(30, 200); // 30 data points
    let estimate = estimate_transcription_time(&stats, 180000).unwrap();

    // 180 s at ratio 0.2 gives 36 s
    assert_eq!(estimate.estimated_ms, 36000);

    // Should be medium confidence (20-50 data points)
    assert_eq!(estimate.confidence, EstimateConfidence::Medium);
}

#[test]
fn test_estimate_with_high_confidence() {
    let stats = create_test_stats(60, 100); // 60 data points
    let estimate = estimate_transcription_time(&stats, 600000).unwrap();

    // 600 s at ratio 0.1 gives 60 s
    assert_eq!(estimate.estimated_ms, 60000);

    // Should be high confidence (50+ data points)
    assert_eq!(estimate.confidence, EstimateConfidence::High);
}

#[test]
fn test_median_handles_outliers() {
    let mut stats = TranscriptionStats::default();

    // Most transcriptions take about 15% of the audio duration
    for i in 0..20 {
        stats.stats.push(TranscriptionStat {
            audio_duration_ms: 100000,
            transcription_time_ms: 15000,
            timestamp: format!("2024-11-08T15:{}:00Z", i),
            model_path: "/test/model.bin".to_string(),
        });
    }

    // Add an outlier (a very slow transcription)
    stats.stats.push(TranscriptionStat {
        audio_duration_ms: 100000,
        transcription_time_ms: 200000,
        timestamp: "2024-11-08T16:00:00Z".to_string(),
        model_path: "/test/model.bin".to_string(),
    });

    let estimate = estimate_transcription_time(&stats, 100000).unwrap();

    // Should be close to 15 s (the median), not pulled up by the outlier
    assert!((estimate.estimated_ms as i64 - 15000).abs() < 2000);
}

#[test]
fn test_handles_zero_duration_gracefully() {
    let mut stats = TranscriptionStats::default();

    // Add some valid stats
    for i in 0..15 {
        stats.stats.push(TranscriptionStat {
            audio_duration_ms: 60000,
            transcription_time_ms: 9000,
            timestamp: format!("2024-11-08T15:{}:00Z", i),
            model_path: "/test/model.bin".to_string(),
        });
    }

    // Add a zero-duration stat (should be filtered out)
    stats.stats.push(TranscriptionStat {
        audio_duration_ms: 0,
        transcription_time_ms: 10000,
        timestamp: "2024-11-08T16:00:00Z".to_string(),
        model_path: "/test/model.bin".to_string(),
    });

    let estimate = estimate_transcription_time(&stats, 120000).unwrap();

    // Estimate rests on ratio 9/60 = 0.15: 120 s gives 18 s
    assert_eq!(estimate.estimated_ms, 18000);
}

#[test]
fn test_stats_container_default() {
    let stats = TranscriptionStats::default();

    assert_eq!(stats.version, 1);
    assert_eq!(stats.stats.len(), 0);
}

#[test]
fn test_confidence_tiers_at_boundaries() {
    // identical ratios throughout: 9 samples give nothing, 10 low,
    // 20 medium, 50 high
    assert!(estimate_transcription_time(&create_test_stats(9, 150), 300000).is_none());
    assert_eq!(
        estimate_transcription_time(&create_test_stats(10, 150), 300000).unwrap().confidence,
        EstimateConfidence::Low
    );
    assert_eq!(
        estimate_transcription_time(&create_test_stats(20, 150), 300000).unwrap().confidence,
        EstimateConfidence::Medium
    );
    assert_eq!(
        estimate_transcription_time(&create_test_stats(50, 150), 300000).unwrap().confidence,
        EstimateConfidence::High
    );
}

#[test]
fn test_all_zero_durations_give_no_estimate() {
    let mut stats = TranscriptionStats::default();
    for i in 0..12 {
        stats.stats.push(TranscriptionStat {
            audio_duration_ms: 0,
            transcription_time_ms: 1000,
            timestamp: format!("2024-11-08T15:{}:00Z", i),
            model_path: "/test/model.bin".to_string(),
        });
    }
    assert!(estimate_transcription_time(&stats, 60000).is_none());
}

#[test]
fn test_even_count_averages_middle_ratios() {
    // ten samples: five at ratio 0.1 and five at ratio 0.3; the median is
    // the average of the two middle ratios, 0.2
    let mut stats = TranscriptionStats::default();
    for i in 0..10 {
        let (dur, time) = if i < 5 { (100000u64, 10000u64) } else { (100000, 30000) };
        stats.stats.push(TranscriptionStat {
            audio_duration_ms: dur,
            transcription_time_ms: time,
            timestamp: format!("2024-11-08T15:{}:00Z", i),
            model_path: "/test/model.bin".to_string(),
        });
    }
    let estimate = estimate_transcription_time(&stats, 100000).unwrap();
    assert_eq!(estimate.estimated_ms, 20000);
}
