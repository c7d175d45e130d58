//! Threshold calibration for the remote classifier.
//!
//! Confidences and thresholds are fixed-point numbers in millionths, so that
//! `1_000_000` stands for a confidence of one. A remote verdict "not a prompt"
//! is trusted only once its confidence reaches the threshold; the calibrator
//! searches a grid of eleven thresholds for the one that agrees with the most
//! human labels.

use vstd::prelude::*;

verus! {

/// The fixed-point value of a confidence of one.
pub const CONFIDENCE_ONE: u32 = 1_000_000;

/// The distance between two neighbouring candidate thresholds.
pub const GRID_STEP: u32 = 100_000;

/// The index of the last candidate threshold; the first has index zero.
pub const LAST_STEP: usize = 10;

/// The smallest interval that `set_interval` lets through.
pub const MIN_INTERVAL: usize = 1;

/// The largest interval that `set_interval` lets through.
pub const MAX_INTERVAL: usize = 10_000;

/// A piece of history: the human label, the remote classifier's flag and the
/// confidence that came with the flag.
#[derive(Clone, Copy, Debug, PartialEq, Eq, Structural)]
pub struct LabeledSample {
    pub label: bool,
    pub flag: bool,
    pub confidence: u32,
}

/// What a stored record offers towards a sample; any part may be missing.
#[derive(Clone, Copy, Debug, PartialEq, Eq, Structural)]
pub struct Observation {
    pub label: Option<bool>,
    pub flag: Option<bool>,
    pub confidence: Option<u32>,
}

/// The outcome of a grid search.
#[derive(Clone, Copy, Debug, PartialEq, Eq, Structural)]
pub struct ThresholdSuggestion {
    /// The chosen grid threshold, in millionths.
    pub best_threshold: u32,
    /// How many samples the chosen threshold classifies as their label says.
    pub correct: usize,
    pub total: usize,
    pub positive: usize,
    pub negative: usize,
}

/// Why the calibrator refuses a request.
#[derive(Clone, Copy, Debug, PartialEq, Eq, Structural)]
pub enum CalibrationError {
    /// No sample carries both a label and a remote prediction.
    NoSamples,
    /// A threshold above one was offered.
    ThresholdOutOfRange,
}

/// What to do with a text after the remote classifier has answered.
#[derive(Clone, Copy, Debug, PartialEq, Eq, Structural)]
pub enum Decision {
    /// The text is not a prompt: drop it.
    Skip,
    /// Keep the text.
    Keep,
    /// Keep the text, and recalibrate the threshold from the full history.
    KeepAndRecalibrate,
}

/// The verdict on a text under a threshold: it counts as a prompt unless the
/// remote flag is false and the confidence reaches the threshold.
pub open spec fn predicts_prompt(flag: bool, confidence: int, threshold: int) -> bool {
    flag || confidence < threshold
}

/// The `k`-th candidate threshold.
pub open spec fn grid_threshold(k: int) -> int {
    k * 100_000
}

/// Whether the verdict on `sample` under `threshold` is its label.
pub open spec fn agrees(sample: LabeledSample, threshold: int) -> bool {
    predicts_prompt(sample.flag, sample.confidence as int, threshold) == sample.label
}

/// The number of samples on which `threshold` agrees with the label.
pub open spec fn correct_count(samples: Seq<LabeledSample>, threshold: int) -> nat
    decreases samples.len(),
{
    if samples.len() == 0 {
        0
    } else {
        correct_count(samples.drop_last(), threshold) + if agrees(samples.last(), threshold) {
            1nat
        } else {
            0nat
        }
    }
}

/// The number of samples whose label is `label`.
pub open spec fn label_count(samples: Seq<LabeledSample>, label: bool) -> nat
    decreases samples.len(),
{
    if samples.len() == 0 {
        0
    } else {
        label_count(samples.drop_last(), label) + if samples.last().label == label {
            1nat
        } else {
            0nat
        }
    }
}

/// Step `k` is the best of the steps below `upto`: no step below `upto` gets
/// more samples right, and every step before `k` gets fewer right.
pub open spec fn is_best_among(samples: Seq<LabeledSample>, k: int, upto: int) -> bool {
    &&& 0 <= k < upto
    &&& forall|j: int|
        0 <= j < upto ==> correct_count(samples, grid_threshold(j)) <= correct_count(
            samples,
            grid_threshold(k),
        )
    &&& forall|j: int|
        0 <= j < k ==> correct_count(samples, grid_threshold(j)) < correct_count(
            samples,
            grid_threshold(k),
        )
}

/// Step `k` is the lowest grid step of highest accuracy.
pub open spec fn is_best_step(samples: Seq<LabeledSample>, k: int) -> bool {
    is_best_among(samples, k, 11)
}

/// `s` is what the search over the grid gives for the samples: the lowest
/// grid threshold of highest accuracy, the number of samples that it gets
/// right, and the numbers of samples in all and by label.
pub open spec fn is_suggestion(s: ThresholdSuggestion, samples: Seq<LabeledSample>) -> bool {
    &&& exists|k: int| #[trigger] is_best_step(samples, k) && s.best_threshold == grid_threshold(k)
    &&& s.correct == correct_count(samples, s.best_threshold as int)
    &&& s.correct <= s.total
    &&& s.total == samples.len()
    &&& s.positive == label_count(samples, true)
    &&& s.negative == label_count(samples, false)
}

/// The sample that an observation gives, if it has all three parts.
pub open spec fn joined(o: Observation) -> Option<LabeledSample> {
    match (o.label, o.flag, o.confidence) {
        (Some(label), Some(flag), Some(confidence)) => Some(
            (LabeledSample { label, flag, confidence }),
        ),
        _ => None,
    }
}

/// The samples that a history gives, in its order.
pub open spec fn usable(history: Seq<Observation>) -> Seq<LabeledSample>
    decreases history.len(),
{
    if history.len() == 0 {
        Seq::empty()
    } else {
        match joined(history.last()) {
            Some(sample) => usable(history.drop_last()).push(sample),
            None => usable(history.drop_last()),
        }
    }
}

/// No threshold gets more samples right than there are.
pub proof fn lemma_correct_count_bound(samples: Seq<LabeledSample>, threshold: int)
    ensures
        correct_count(samples, threshold) <= samples.len(),
    decreases samples.len(),
{
    if samples.len() > 0 {
        lemma_correct_count_bound(samples.drop_last(), threshold);
    }
}

/// Every sample is labelled one way or the other.
pub proof fn lemma_label_counts_split(samples: Seq<LabeledSample>)
    ensures
        label_count(samples, true) + label_count(samples, false) == samples.len(),
    decreases samples.len(),
{
    if samples.len() > 0 {
        lemma_label_counts_split(samples.drop_last());
    }
}

impl CalibrationError {
    /// The text shown to the user for this error.
    pub fn message(&self) -> (text: String)
        ensures
            text@ == match *self {
                CalibrationError::NoSamples => "no labeled samples with model prediction"@,
                CalibrationError::ThresholdOutOfRange => "threshold must be between 0 and 1"@,
            },
    {
        match self {
            CalibrationError::NoSamples => "no labeled samples with model prediction".to_string(),
            CalibrationError::ThresholdOutOfRange => "threshold must be between 0 and 1".to_string(),
        }
    }
}

impl Observation {
    /// The sample of this observation; `None` when a part is missing.
    pub fn join(&self) -> (sample: Option<LabeledSample>)
        ensures
            sample == joined(*self),
    {
        match (self.label, self.flag, self.confidence) {
            (Some(label), Some(flag), Some(confidence)) => Some(
                LabeledSample { label, flag, confidence },
            ),
            _ => None,
        }
    }
}

/// Keeps the observations that carry a label, a flag and a confidence.
pub fn usable_samples(history: &Vec<Observation>) -> (samples: Vec<LabeledSample>)
    ensures
        samples@ == usable(history@),
{
    let mut samples: Vec<LabeledSample> = Vec::new();
    let mut i: usize = 0;
    while i < history.len()
        invariant
            i <= history.len(),
            samples@ == usable(history@.take(i as int)),
        decreases history.len() - i,
    {
        assert(history@.take(i + 1).drop_last() == history@.take(i as int));
        match history[i].join() {
            Some(sample) => samples.push(sample),
            None => {},
        }
        i += 1;
    }
    assert(history@.take(i as int) == history@);
    samples
}

/// Counts the samples on which `threshold` agrees with the label.
pub fn count_correct(samples: &Vec<LabeledSample>, threshold: u32) -> (correct: usize)
    ensures
        correct == correct_count(samples@, threshold as int),
{
    let mut correct: usize = 0;
    let mut i: usize = 0;
    while i < samples.len()
        invariant
            i <= samples.len(),
            correct == correct_count(samples@.take(i as int), threshold as int),
            correct <= i,
        decreases samples.len() - i,
    {
        assert(samples@.take(i + 1).drop_last() == samples@.take(i as int));
        let sample = samples[i];
        let predicted = sample.flag || sample.confidence < threshold;
        if predicted == sample.label {
            correct += 1;
        }
        i += 1;
    }
    assert(samples@.take(i as int) == samples@);
    correct
}

/// Counts the samples whose label is `label`.
pub fn count_label(samples: &Vec<LabeledSample>, label: bool) -> (count: usize)
    ensures
        count == label_count(samples@, label),
{
    let mut count: usize = 0;
    let mut i: usize = 0;
    while i < samples.len()
        invariant
            i <= samples.len(),
            count == label_count(samples@.take(i as int), label),
            count <= i,
        decreases samples.len() - i,
    {
        assert(samples@.take(i + 1).drop_last() == samples@.take(i as int));
        if samples[i].label == label {
            count += 1;
        }
        i += 1;
    }
    assert(samples@.take(i as int) == samples@);
    count
}

/// Searches the grid `0.0, 0.1, .., 1.0` for the threshold that agrees with the
/// most labels. Among thresholds of equal accuracy the lowest is chosen. Fails
/// exactly when there is no sample.
pub fn suggest(samples: &Vec<LabeledSample>) -> (result: Result<
    ThresholdSuggestion,
    CalibrationError,
>)
    ensures
        samples@.len() == 0 <==> result is Err,
        result is Err ==> result == Err::<ThresholdSuggestion, CalibrationError>(
            CalibrationError::NoSamples,
        ),
        result matches Ok(s) ==> is_suggestion(s, samples@),
{
    if samples.len() == 0 {
        return Err(CalibrationError::NoSamples);
    }
    let mut best_step: usize = 0;
    let mut best_correct: usize = count_correct(samples, 0);
    let mut step: usize = 1;
    while step <= LAST_STEP
        invariant
            1 <= step <= LAST_STEP + 1,
            best_step < step,
            is_best_among(samples@, best_step as int, step as int),
            best_correct == correct_count(samples@, grid_threshold(best_step as int)),
        decreases LAST_STEP + 1 - step,
    {
        let threshold: u32 = (step as u32) * GRID_STEP;
        let correct = count_correct(samples, threshold);
        if correct > best_correct {
            best_step = step;
            best_correct = correct;
        }
        step += 1;
    }
    let best_threshold: u32 = (best_step as u32) * GRID_STEP;
    let positive = count_label(samples, true);
    let negative = count_label(samples, false);
    assert(is_best_step(samples@, best_step as int));
    proof {
        lemma_correct_count_bound(samples@, best_threshold as int);
    }
    Ok(ThresholdSuggestion { best_threshold, correct: best_correct, total: samples.len(), positive, negative })
}

/// Joins the history into samples and searches the grid over them.
pub fn compute_threshold(history: &Vec<Observation>) -> (result: Result<
    ThresholdSuggestion,
    CalibrationError,
>)
    ensures
        usable(history@).len() == 0 <==> result is Err,
        result is Err ==> result == Err::<ThresholdSuggestion, CalibrationError>(
            CalibrationError::NoSamples,
        ),
        result matches Ok(s) ==> is_suggestion(s, usable(history@)),
{
    let samples = usable_samples(history);
    suggest(&samples)
}


/// The live threshold together with the count of samples since the last
/// calibration and the interval at which calibration recurs.
#[derive(Clone, Copy, Debug)]
pub struct CalibrationState {
    threshold: u32,
    interval: usize,
    counter: usize,
}

/// The interval that is in force: an interval of zero counts as one.
pub open spec fn effective_interval(interval: int) -> int {
    if interval < 1 {
        1
    } else {
        interval
    }
}

/// `value` brought into the range from `MIN_INTERVAL` to `MAX_INTERVAL`.
pub open spec fn clamped_interval(value: int) -> int {
    if value < 1 {
        1
    } else if value > 10_000 {
        10_000
    } else {
        value
    }
}

/// The decision on a text: kept without an answer of the classifier;
/// skipped if the answer is rejected under the threshold; else kept, with
/// recalibration once the counter, advanced by one, reaches the interval.
pub open spec fn decision_on(
    verdict: Option<(bool, u32)>,
    threshold: int,
    interval: int,
    counter: int,
) -> Decision {
    match verdict {
        None => Decision::Keep,
        Some((flag, confidence)) => if !predicts_prompt(flag, confidence as int, threshold) {
            Decision::Skip
        } else if counter + 1 >= effective_interval(interval) {
            Decision::KeepAndRecalibrate
        } else {
            Decision::Keep
        },
    }
}

/// The verdict that the parts of an answer give: none without a flag, and a
/// confidence of zero where the answer names none.
pub open spec fn verdict_of(flag: Option<bool>, confidence: Option<u32>) -> Option<(bool, u32)> {
    match flag {
        Some(is_prompt) => Some(
            (
                is_prompt,
                match confidence {
                    Some(value) => value,
                    None => 0u32,
                },
            ),
        ),
        None => None,
    }
}

/// The label that a record carries: a truth value as it stands, or else a
/// number, which says "prompt" unless it is zero.
pub open spec fn label_of(truth: Option<bool>, number: Option<i64>) -> Option<bool> {
    match truth {
        Some(label) => Some(label),
        None => match number {
            Some(n) => Some(n != 0),
            None => None,
        },
    }
}

/// Reads the verdict out of the parts of an answer.
pub fn read_verdict(flag: Option<bool>, confidence: Option<u32>) -> (verdict: Option<(bool, u32)>)
    ensures
        verdict == verdict_of(flag, confidence),
{
    match flag {
        Some(is_prompt) => Some(
            (
                is_prompt,
                match confidence {
                    Some(value) => value,
                    None => 0,
                },
            ),
        ),
        None => None,
    }
}

/// Reads the label out of what a record carries for it.
pub fn read_label(truth: Option<bool>, number: Option<i64>) -> (label: Option<bool>)
    ensures
        label == label_of(truth, number),
{
    match truth {
        Some(label) => Some(label),
        None => match number {
            Some(n) => Some(n != 0),
            None => None,
        },
    }
}

impl CalibrationState {
    /// The live threshold, in millionths.
    pub closed spec fn threshold_value(&self) -> int {
        self.threshold as int
    }

    /// The number of kept texts after which recalibration comes due.
    pub closed spec fn interval_value(&self) -> int {
        self.interval as int
    }

    /// The number of kept texts since recalibration was last due.
    pub closed spec fn counter_value(&self) -> int {
        self.counter as int
    }

    /// The counter never reaches the largest machine integer, so that it can
    /// always be advanced by one.
    pub closed spec fn wf(&self) -> bool {
        self.counter < usize::MAX
    }

    /// A state with the given threshold and interval; nothing is counted yet.
    pub fn new(threshold: u32, interval: usize) -> (state: Self)
        ensures
            state.wf(),
            state.threshold_value() == threshold,
            state.interval_value() == interval,
            state.counter_value() == 0,
    {
        CalibrationState { threshold, interval, counter: 0 }
    }

    /// The live threshold, in millionths.
    pub fn threshold(&self) -> (value: u32)
        ensures
            value == self.threshold_value(),
    {
        self.threshold
    }

    /// The number of kept texts after which recalibration comes due.
    pub fn interval(&self) -> (value: usize)
        ensures
            value == self.interval_value(),
    {
        self.interval
    }

    /// The number of kept texts since recalibration was last due.
    pub fn counter(&self) -> (value: usize)
        ensures
            value == self.counter_value(),
    {
        self.counter
    }

    /// Replaces the threshold if `value` is at most one; otherwise nothing
    /// changes and the value is reported as out of range.
    pub fn set_threshold(&mut self, value: u32) -> (result: Result<u32, CalibrationError>)
        requires
            old(self).wf(),
        ensures
            final(self).wf(),
            final(self).interval_value() == old(self).interval_value(),
            final(self).counter_value() == old(self).counter_value(),
            value <= CONFIDENCE_ONE ==> result == Ok::<u32, CalibrationError>(value)
                && final(self).threshold_value() == value,
            value > CONFIDENCE_ONE ==> result == Err::<u32, CalibrationError>(
                CalibrationError::ThresholdOutOfRange,
            ) && final(self).threshold_value() == old(self).threshold_value(),
    {
        if value > CONFIDENCE_ONE {
            return Err(CalibrationError::ThresholdOutOfRange);
        }
        self.threshold = value;
        Ok(value)
    }

    /// Replaces the interval by `value` clamped to `1..=10_000`, and returns
    /// what was stored.
    pub fn set_interval(&mut self, value: usize) -> (stored: usize)
        requires
            old(self).wf(),
        ensures
            final(self).wf(),
            stored == clamped_interval(value as int),
            final(self).interval_value() == stored,
            final(self).threshold_value() == old(self).threshold_value(),
            final(self).counter_value() == old(self).counter_value(),
    {
        let stored: usize = if value < MIN_INTERVAL {
            MIN_INTERVAL
        } else if value > MAX_INTERVAL {
            MAX_INTERVAL
        } else {
            value
        };
        self.interval = stored;
        stored
    }

    /// Whether a text is kept under the live threshold. `None` stands for a
    /// classifier that could not be reached; such a text is kept.
    pub fn accepts(&self, verdict: Option<(bool, u32)>) -> (keep: bool)
        ensures
            keep == match verdict {
                Some((flag, confidence)) => predicts_prompt(
                    flag,
                    confidence as int,
                    self.threshold_value(),
                ),
                None => true,
            },
    {
        match verdict {
            Some((flag, confidence)) => flag || confidence < self.threshold,
            None => true,
        }
    }

    /// Takes in the answer of the remote classifier to one text; `None`
    /// stands for a classifier that could not be reached. Without an answer
    /// the text is kept and the state stays. A text that the live threshold
    /// rejects is skipped and leaves the state as it was. A text that is
    /// kept on an answer advances the counter; when the counter reaches the
    /// interval it starts again from zero and recalibration is due.
    pub fn observe(&mut self, verdict: Option<(bool, u32)>) -> (decision: Decision)
        requires
            old(self).wf(),
        ensures
            final(self).wf(),
            final(self).threshold_value() == old(self).threshold_value(),
            final(self).interval_value() == old(self).interval_value(),
            decision == decision_on(
                verdict,
                old(self).threshold_value(),
                old(self).interval_value(),
                old(self).counter_value(),
            ),
            final(self).counter_value() == match decision {
                Decision::KeepAndRecalibrate => 0,
                Decision::Keep => if verdict is Some {
                    old(self).counter_value() + 1
                } else {
                    old(self).counter_value()
                },
                Decision::Skip => old(self).counter_value(),
            },
    {
        match verdict {
            None => Decision::Keep,
            Some((flag, confidence)) => {
                if !flag && confidence >= self.threshold {
                    return Decision::Skip;
                }
                let due: usize = if self.interval < 1 {
                    1
                } else {
                    self.interval
                };
                let advanced: usize = self.counter + 1;
                if advanced >= due {
                    self.counter = 0;
                    Decision::KeepAndRecalibrate
                } else {
                    self.counter = advanced;
                    Decision::Keep
                }
            },
        }
    }

    /// Makes the suggested threshold the live one.
    pub fn adopt(&mut self, suggestion: &ThresholdSuggestion)
        requires
            old(self).wf(),
        ensures
            final(self).wf(),
            final(self).threshold_value() == suggestion.best_threshold,
            final(self).interval_value() == old(self).interval_value(),
            final(self).counter_value() == old(self).counter_value(),
    {
        self.threshold = suggestion.best_threshold;
    }

    /// Searches the grid over `samples` and adopts the result. Without
    /// samples there is no result and the threshold stays.
    pub fn recalibrate(&mut self, samples: &Vec<LabeledSample>) -> (adopted: Option<
        ThresholdSuggestion,
    >)
        requires
            old(self).wf(),
        ensures
            final(self).wf(),
            final(self).interval_value() == old(self).interval_value(),
            final(self).counter_value() == old(self).counter_value(),
            samples@.len() == 0 <==> adopted is None,
            adopted is None ==> final(self).threshold_value() == old(self).threshold_value(),
            adopted matches Some(s) ==> final(self).threshold_value() == s.best_threshold
                && is_suggestion(s, samples@),
    {
        match suggest(samples) {
            Ok(suggestion) => {
                self.adopt(&suggestion);
                Some(suggestion)
            },
            Err(_) => None,
        }
    }
}

impl ThresholdSuggestion {
    /// The accuracy of the chosen threshold in millionths, rounded down; zero
    /// when there is no sample.
    pub fn accuracy(&self) -> (millionths: u32)
        requires
            self.correct <= self.total,
        ensures
            self.total == 0 ==> millionths == 0,
            self.total > 0 ==> millionths == (self.correct * 1_000_000) / (self.total as int),
    {
        if self.total == 0 {
            return 0;
        }
        let scaled: u128 = (self.correct as u128) * 1_000_000u128;
        let total: u128 = self.total as u128;
        let ratio: u128 = scaled / total;
        assert(ratio <= 1_000_000) by (nonlinear_arith)
            requires
                ratio == scaled / total,
                scaled <= total * 1_000_000,
                total > 0,
        ;
        ratio as u32
    }
}

/// The grid step of highest accuracy is unique.
pub proof fn lemma_best_step_unique(samples: Seq<LabeledSample>, k1: int, k2: int)
    requires
        is_best_step(samples, k1),
        is_best_step(samples, k2),
    ensures
        k1 == k2,
{
    if k1 < k2 {
        assert(correct_count(samples, grid_threshold(k1)) < correct_count(
            samples,
            grid_threshold(k2),
        ));
    } else if k2 < k1 {
        assert(correct_count(samples, grid_threshold(k2)) < correct_count(
            samples,
            grid_threshold(k1),
        ));
    }
}

/// The search is determined by the samples: two suggestions for the same
/// samples are equal.
pub proof fn lemma_suggestion_unique(
    first: ThresholdSuggestion,
    second: ThresholdSuggestion,
    samples: Seq<LabeledSample>,
)
    requires
        is_suggestion(first, samples),
        is_suggestion(second, samples),
    ensures
        first == second,
{
    let k1 = choose|k: int| #[trigger]
        is_best_step(samples, k) && first.best_threshold == grid_threshold(k);
}

/// Of two grid thresholds of equal accuracy the search returns the lower
/// one: a grid threshold that gets as many samples right as the suggested
/// one does not lie below it.
pub proof fn lemma_tie_goes_to_lower_threshold(
    suggestion: ThresholdSuggestion,
    samples: Seq<LabeledSample>,
    other: int,
)
    requires
        is_suggestion(suggestion, samples),
        0 <= other <= 10,
        correct_count(samples, grid_threshold(other)) == suggestion.correct,
    ensures
        suggestion.best_threshold <= grid_threshold(other),
{
    let k = choose|k: int| #[trigger]
        is_best_step(samples, k) && suggestion.best_threshold == grid_threshold(k);
    if other < k {
        assert(correct_count(samples, grid_threshold(other)) < correct_count(
            samples,
            grid_threshold(k),
        ));
    }
}

/// No grid threshold gets more samples right than the suggested one.
pub proof fn lemma_suggestion_is_best(
    suggestion: ThresholdSuggestion,
    samples: Seq<LabeledSample>,
    other: int,
)
    requires
        is_suggestion(suggestion, samples),
        0 <= other <= 10,
    ensures
        correct_count(samples, grid_threshold(other)) <= suggestion.correct,
        suggestion.correct <= suggestion.total,
{
    lemma_correct_count_bound(samples, suggestion.best_threshold as int);
}

/// The positive and the negative samples of a suggestion are all its
/// samples.
pub proof fn lemma_suggestion_counts_every_sample(
    suggestion: ThresholdSuggestion,
    samples: Seq<LabeledSample>,
)
    requires
        is_suggestion(suggestion, samples),
    ensures
        suggestion.positive + suggestion.negative == suggestion.total,
{
    lemma_label_counts_split(samples);
}

/// A threshold that agrees with every label gets every sample right.
pub proof fn lemma_all_agree(samples: Seq<LabeledSample>, threshold: int)
    requires
        forall|i: int| 0 <= i < samples.len() ==> agrees(#[trigger] samples[i], threshold),
    ensures
        correct_count(samples, threshold) == samples.len(),
    decreases samples.len(),
{
    if samples.len() > 0 {
        let rest = samples.drop_last();
        assert forall|i: int| 0 <= i < rest.len() implies agrees(#[trigger] rest[i], threshold) by {
        }
        lemma_all_agree(rest, threshold);
    }
}

/// If every label says "prompt" exactly when the flag is set or the
/// confidence is below one half, the suggested threshold gets every sample
/// right.
pub proof fn lemma_separable_history_is_fully_matched(
    suggestion: ThresholdSuggestion,
    samples: Seq<LabeledSample>,
)
    requires
        forall|i: int|
            0 <= i < samples.len() ==> (#[trigger] samples[i]).label == (samples[i].flag
                || samples[i].confidence < 500_000),
        is_suggestion(suggestion, samples),
    ensures
        suggestion.correct == suggestion.total,
{
    assert forall|i: int| 0 <= i < samples.len() implies agrees(
        #[trigger] samples[i],
        grid_threshold(5),
    ) by {}
    lemma_all_agree(samples, grid_threshold(5));
    lemma_suggestion_is_best(suggestion, samples, 5);
}

} // verus!
