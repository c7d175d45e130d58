use promptlab_core::calibration::{
    compute_threshold, count_correct, count_label, read_label, read_verdict, suggest,
    usable_samples, CalibrationError, CalibrationState, Decision, LabeledSample, Observation,
    ThresholdSuggestion, CONFIDENCE_ONE, GRID_STEP,
};

fn sample(label: bool, flag: bool, confidence: u32) -> LabeledSample {
    LabeledSample { label, flag, confidence }
}

fn fixed(confidence: f64) -> u32 {
    (confidence * 1_000_000.0).round() as u32
}

#[test]
fn three_samples_are_all_matched() {
    let samples = vec![
        sample(true, true, fixed(0.9)),
        sample(false, false, fixed(0.8)),
        sample(false, false, fixed(0.3)),
    ];
    let suggestion = suggest(&samples).unwrap();
    assert_eq!(suggestion.correct, 3);
    assert_eq!(suggestion.total, 3);
    assert_eq!(suggestion.accuracy(), 1_000_000);
    assert_eq!(suggestion.positive, 1);
    assert_eq!(suggestion.negative, 2);
    // every threshold up to 0.3 matches all three; the lowest of them wins
    assert_eq!(suggestion.best_threshold, 0);
    assert_eq!(count_correct(&samples, fixed(0.3)), 3);
    assert_eq!(count_correct(&samples, fixed(0.4)), 2);
    assert_eq!(count_correct(&samples, fixed(0.9)), 1);
}

#[test]
fn best_threshold_lies_between_the_confidences() {
    let samples = vec![sample(true, false, fixed(0.3)), sample(false, false, fixed(0.8))];
    let suggestion = suggest(&samples).unwrap();
    assert_eq!(suggestion.best_threshold, 4 * GRID_STEP);
    assert_eq!(suggestion.correct, 2);
    assert_eq!(suggestion.accuracy(), 1_000_000);
    for step in 4..=8u32 {
        assert_eq!(count_correct(&samples, step * GRID_STEP), 2);
    }
    assert_eq!(count_correct(&samples, 3 * GRID_STEP), 1);
    assert_eq!(count_correct(&samples, 9 * GRID_STEP), 1);
}

#[test]
fn suggest_fails_without_samples() {
    let samples: Vec<LabeledSample> = Vec::new();
    assert_eq!(suggest(&samples), Err(CalibrationError::NoSamples));
    assert_eq!(
        CalibrationError::NoSamples.message(),
        "no labeled samples with model prediction"
    );
}

#[test]
fn separable_history_is_fully_matched() {
    let mut samples = Vec::new();
    let confidences = [0u32, 120_000, 499_999, 500_000, 500_001, 730_000, 1_000_000];
    for confidence in confidences {
        for flag in [false, true] {
            let label = flag || confidence < 500_000;
            samples.push(sample(label, flag, confidence));
        }
    }
    let suggestion = suggest(&samples).unwrap();
    assert_eq!(suggestion.correct, suggestion.total);
    assert_eq!(suggestion.total, 14);
    assert_eq!(suggestion.best_threshold, 5 * GRID_STEP);
    assert_eq!(suggestion.accuracy(), 1_000_000);
}

#[test]
fn lower_threshold_wins_a_tie() {
    // a flagged sample is matched by every threshold alike
    let samples = vec![sample(true, true, 700_000)];
    let suggestion = suggest(&samples).unwrap();
    assert_eq!(suggestion.best_threshold, 0);
    assert_eq!(suggestion.correct, 1);
    // thresholds 0.4 to 1.0 all match this one; 0.4 is returned
    let samples = vec![sample(true, false, 300_000)];
    let suggestion = suggest(&samples).unwrap();
    assert_eq!(suggestion.best_threshold, 400_000);
    // no threshold matches: the first stays
    let samples = vec![sample(false, true, 300_000)];
    let suggestion = suggest(&samples).unwrap();
    assert_eq!(suggestion.best_threshold, 0);
    assert_eq!(suggestion.correct, 0);
    assert_eq!(suggestion.accuracy(), 0);
}

#[test]
fn accuracy_is_rounded_down() {
    let suggestion = ThresholdSuggestion {
        best_threshold: 0,
        correct: 2,
        total: 3,
        positive: 2,
        negative: 1,
    };
    assert_eq!(suggestion.accuracy(), 666_666);
    let none = ThresholdSuggestion { best_threshold: 0, correct: 0, total: 0, positive: 0, negative: 0 };
    assert_eq!(none.accuracy(), 0);
}

#[test]
fn labels_are_counted() {
    let samples = vec![
        sample(true, true, 1),
        sample(false, true, 2),
        sample(true, false, 3),
    ];
    assert_eq!(count_label(&samples, true), 2);
    assert_eq!(count_label(&samples, false), 1);
}

#[test]
fn observations_without_a_part_are_left_out() {
    let history = vec![
        Observation { label: Some(true), flag: Some(true), confidence: Some(900_000) },
        Observation { label: None, flag: Some(false), confidence: Some(100_000) },
        Observation { label: Some(false), flag: None, confidence: Some(100_000) },
        Observation { label: Some(false), flag: Some(false), confidence: None },
        Observation { label: Some(false), flag: Some(false), confidence: Some(800_000) },
    ];
    let samples = usable_samples(&history);
    assert_eq!(samples, vec![sample(true, true, 900_000), sample(false, false, 800_000)]);
    assert_eq!(history[1].join(), None);
    assert_eq!(history[0].join(), Some(sample(true, true, 900_000)));
    let suggestion = compute_threshold(&history).unwrap();
    assert_eq!(suggestion.total, 2);
    assert_eq!(suggestion.correct, 2);
    assert_eq!(suggestion.best_threshold, 0);
    let nothing = vec![Observation { label: None, flag: None, confidence: None }];
    assert_eq!(compute_threshold(&nothing), Err(CalibrationError::NoSamples));
}

#[test]
fn verdicts_and_labels_are_read() {
    assert_eq!(read_verdict(Some(true), Some(250_000)), Some((true, 250_000)));
    assert_eq!(read_verdict(Some(false), None), Some((false, 0)));
    assert_eq!(read_verdict(None, Some(250_000)), None);
    assert_eq!(read_label(Some(false), Some(1)), Some(false));
    assert_eq!(read_label(None, Some(1)), Some(true));
    assert_eq!(read_label(None, Some(-3)), Some(true));
    assert_eq!(read_label(None, Some(0)), Some(false));
    assert_eq!(read_label(None, None), None);
}

#[test]
fn rejected_verdict_is_skipped() {
    let state = CalibrationState::new(100_000, 20);
    assert!(!state.accepts(Some((false, 100_000))));
    assert!(!state.accepts(Some((false, 900_000))));
    assert!(state.accepts(Some((false, 99_999))));
    assert!(state.accepts(Some((true, 900_000))));
    assert!(state.accepts(None));
}

#[test]
fn recalibration_comes_due_at_the_interval() {
    let mut state = CalibrationState::new(100_000, 3);
    assert_eq!(state.observe(Some((true, 900_000))), Decision::Keep);
    assert_eq!(state.counter(), 1);
    assert_eq!(state.observe(Some((false, 500_000))), Decision::Skip);
    assert_eq!(state.counter(), 1);
    assert_eq!(state.observe(None), Decision::Keep);
    assert_eq!(state.counter(), 1);
    assert_eq!(state.observe(Some((false, 50_000))), Decision::Keep);
    assert_eq!(state.counter(), 2);
    assert_eq!(state.observe(Some((true, 0))), Decision::KeepAndRecalibrate);
    assert_eq!(state.counter(), 0);
    assert_eq!(state.threshold(), 100_000);
    assert_eq!(state.interval(), 3);
}

#[test]
fn interval_of_zero_counts_as_one() {
    let mut state = CalibrationState::new(100_000, 0);
    assert_eq!(state.observe(Some((true, 1))), Decision::KeepAndRecalibrate);
    assert_eq!(state.counter(), 0);
}

#[test]
fn threshold_above_one_is_refused() {
    let mut state = CalibrationState::new(100_000, 20);
    assert_eq!(state.set_threshold(CONFIDENCE_ONE), Ok(1_000_000));
    assert_eq!(state.threshold(), 1_000_000);
    assert_eq!(state.set_threshold(CONFIDENCE_ONE + 1), Err(CalibrationError::ThresholdOutOfRange));
    assert_eq!(state.threshold(), 1_000_000);
    assert_eq!(state.set_threshold(0), Ok(0));
    assert_eq!(
        CalibrationError::ThresholdOutOfRange.message(),
        "threshold must be between 0 and 1"
    );
}

#[test]
fn interval_is_clamped() {
    let mut state = CalibrationState::new(100_000, 20);
    assert_eq!(state.set_interval(0), 1);
    assert_eq!(state.interval(), 1);
    assert_eq!(state.set_interval(10_001), 10_000);
    assert_eq!(state.set_interval(10_000), 10_000);
    assert_eq!(state.set_interval(37), 37);
    assert_eq!(state.interval(), 37);
}

#[test]
fn recalibration_adopts_the_suggestion() {
    let mut state = CalibrationState::new(100_000, 20);
    let samples = vec![sample(true, false, 300_000), sample(false, false, 800_000)];
    let adopted = state.recalibrate(&samples).unwrap();
    assert_eq!(adopted.best_threshold, 400_000);
    assert_eq!(state.threshold(), 400_000);
    let nothing: Vec<LabeledSample> = Vec::new();
    assert_eq!(state.recalibrate(&nothing), None);
    assert_eq!(state.threshold(), 400_000);
    let other = ThresholdSuggestion { best_threshold: 700_000, correct: 1, total: 1, positive: 1, negative: 0 };
    state.adopt(&other);
    assert_eq!(state.threshold(), 700_000);
}
