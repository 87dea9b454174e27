//! The decision table of the baseline confidence scorer.
//!
//! The scorer turns a track's evidence into a score, an uncertainty band,
//! reason codes, a calibration status and, when something drags the score
//! down, an explanation. The arithmetic on the components is floating point;
//! what follows from its comparisons (which reason codes are raised, in which
//! order, and which calibration status applies) is fixed here.

use vstd::prelude::*;

use crate::model::{CalibrationStatus, FeedbackVerdict, ReasonCode};

verus! {

/// The v0 deterministic scorer: same evidence, same confidence, every time.
#[derive(Debug, Clone, Copy)]
pub struct BaselineConfidenceScorer;

impl Default for BaselineConfidenceScorer {
    fn default() -> (s: BaselineConfidenceScorer)
        ensures
            s == BaselineConfidenceScorer,
    {
        BaselineConfidenceScorer
    }
}

impl BaselineConfidenceScorer {
    pub fn new() -> (s: BaselineConfidenceScorer)
        ensures
            s == BaselineConfidenceScorer,
    {
        BaselineConfidenceScorer
    }

    /// The scorer's name, as reported alongside its results.
    pub fn name(&self) -> (n: &'static str)
        ensures
            n@ == "baseline-v0"@,
    {
        proof {
            reveal_strlit("baseline-v0");
        }
        "baseline-v0"
    }
}

/// Where the historical calibration score falls: zero (no history yet),
/// below one half, from one half to below 0.8, or from 0.8 up.
#[derive(Debug, Clone, Copy, PartialEq, Eq, Structural)]
pub enum CalibrationBand {
    NoHistory,
    Poor,
    Fair,
    Good,
}

/// What the operator said about the track.
#[derive(Debug, Clone, Copy, PartialEq, Eq, Structural)]
pub enum OperatorStance {
    Neutral,
    Confirmed,
    Rejected,
    Adjusted,
}

/// The stance an operator's verdict gives the scorer: a confirmation or a
/// rejection is taken as such, an adjustment nudges the score by the amount
/// the feedback carries, and a reclassification leaves confidence alone.
pub fn stance_of(verdict: FeedbackVerdict) -> (s: OperatorStance)
    ensures
        s == match verdict {
            FeedbackVerdict::ConfirmTrack => OperatorStance::Confirmed,
            FeedbackVerdict::RejectTrack => OperatorStance::Rejected,
            FeedbackVerdict::AdjustConfidence => OperatorStance::Adjusted,
            FeedbackVerdict::Reclassify => OperatorStance::Neutral,
        },
{
    match verdict {
        FeedbackVerdict::ConfirmTrack => OperatorStance::Confirmed,
        FeedbackVerdict::RejectTrack => OperatorStance::Rejected,
        FeedbackVerdict::AdjustConfidence => OperatorStance::Adjusted,
        FeedbackVerdict::Reclassify => OperatorStance::Neutral,
    }
}

/// The facts about a track's evidence that the scorer's rules read.
#[derive(Debug, Clone, Copy, PartialEq, Eq, Structural)]
pub struct ScoreSignals {
    /// Number of distinct corroborating sources.
    pub distinct_sources: usize,
    pub conflict_count: usize,
    /// The freshest contribution is older than half the freshness horizon.
    pub stale: bool,
    /// Some health report exists and the worst one is below 0.6.
    pub sensor_degraded: bool,
    /// The mean reliability of the sources is below one half.
    pub low_reliability: bool,
    pub calibration: CalibrationBand,
    pub operator: OperatorStance,
    /// The final score is below 0.7.
    pub low_score: bool,
}

/// `code` appended to `codes` when `cond` holds.
pub open spec fn push_if(codes: Seq<ReasonCode>, cond: bool, code: ReasonCode) -> Seq<ReasonCode> {
    if cond {
        codes.push(code)
    } else {
        codes
    }
}

/// The reason codes of a score, in the order the scorer raises them.
pub open spec fn reason_code_list(s: ScoreSignals) -> Seq<ReasonCode> {
    let c0 = if s.distinct_sources >= 2 {
        seq![ReasonCode::MultiSourceCorroboration]
    } else {
        seq![ReasonCode::SingleSourceOnly]
    };
    let c1 = push_if(c0, s.stale, ReasonCode::StaleContribution);
    let c2 = push_if(c1, s.sensor_degraded, ReasonCode::SensorDegraded);
    let c3 = push_if(c2, s.conflict_count > 0, ReasonCode::ConflictDetected);
    let c4 = push_if(c3, s.operator == OperatorStance::Confirmed, ReasonCode::OperatorConfirmed);
    let c5 = push_if(c4, s.operator == OperatorStance::Rejected, ReasonCode::OperatorRejected);
    let c6 = push_if(c5, s.low_reliability, ReasonCode::LowSourceReliability);
    let c7 = push_if(c6, s.calibration == CalibrationBand::Good, ReasonCode::WellCalibrated);
    push_if(c7, s.calibration == CalibrationBand::Poor, ReasonCode::CalibrationDrift)
}

/// A code is among those `push_if` gives exactly when it was among the
/// codes before or it is the code pushed under a condition that holds.
proof fn lemma_push_if_contains(codes: Seq<ReasonCode>, cond: bool, code: ReasonCode)
    ensures
        forall|c: ReasonCode|
            #[trigger] push_if(codes, cond, code).contains(c) <==> (codes.contains(c) || (cond && c == code)),
{
    assert forall|c: ReasonCode| #[trigger] push_if(codes, cond, code).contains(c) <==> (codes.contains(c) || (cond
        && c == code)) by {
        if cond {
            let out = codes.push(code);
            if codes.contains(c) {
                let i = choose|i: int| 0 <= i < codes.len() && codes[i] == c;
                assert(out[i] == c);
            }
            if c == code {
                assert(out[codes.len() as int] == c);
            }
            if out.contains(c) {
                let i = choose|i: int| 0 <= i < out.len() && out[i] == c;
                if i < codes.len() {
                    assert(codes[i] == c);
                }
            }
        }
    }
}

/// Each reason code is raised exactly when its signal holds: one of
/// `SingleSourceOnly` and `MultiSourceCorroboration` by the number of
/// distinct sources, and every other code by its own flag, band or stance.
pub proof fn lemma_reason_code_membership(s: ScoreSignals)
    ensures
        reason_code_list(s).contains(ReasonCode::SingleSourceOnly) <==> s.distinct_sources < 2,
        reason_code_list(s).contains(ReasonCode::MultiSourceCorroboration) <==> s.distinct_sources >= 2,
        reason_code_list(s).contains(ReasonCode::StaleContribution) <==> s.stale,
        reason_code_list(s).contains(ReasonCode::SensorDegraded) <==> s.sensor_degraded,
        reason_code_list(s).contains(ReasonCode::ConflictDetected) <==> s.conflict_count > 0,
        reason_code_list(s).contains(ReasonCode::OperatorConfirmed) <==> s.operator == OperatorStance::Confirmed,
        reason_code_list(s).contains(ReasonCode::OperatorRejected) <==> s.operator == OperatorStance::Rejected,
        reason_code_list(s).contains(ReasonCode::LowSourceReliability) <==> s.low_reliability,
        reason_code_list(s).contains(ReasonCode::WellCalibrated) <==> s.calibration == CalibrationBand::Good,
        reason_code_list(s).contains(ReasonCode::CalibrationDrift) <==> s.calibration == CalibrationBand::Poor,
{
    let r0 = if s.distinct_sources >= 2 {
        seq![ReasonCode::MultiSourceCorroboration]
    } else {
        seq![ReasonCode::SingleSourceOnly]
    };
    assert forall|c: ReasonCode| r0.contains(c) <==> c == r0[0] by {
        if c == r0[0] {
            assert(r0[0] == c);
        }
    }
    let r1 = push_if(r0, s.stale, ReasonCode::StaleContribution);
    let r2 = push_if(r1, s.sensor_degraded, ReasonCode::SensorDegraded);
    let r3 = push_if(r2, s.conflict_count > 0, ReasonCode::ConflictDetected);
    let r4 = push_if(r3, s.operator == OperatorStance::Confirmed, ReasonCode::OperatorConfirmed);
    let r5 = push_if(r4, s.operator == OperatorStance::Rejected, ReasonCode::OperatorRejected);
    let r6 = push_if(r5, s.low_reliability, ReasonCode::LowSourceReliability);
    let r7 = push_if(r6, s.calibration == CalibrationBand::Good, ReasonCode::WellCalibrated);
    lemma_push_if_contains(r0, s.stale, ReasonCode::StaleContribution);
    lemma_push_if_contains(r1, s.sensor_degraded, ReasonCode::SensorDegraded);
    lemma_push_if_contains(r2, s.conflict_count > 0, ReasonCode::ConflictDetected);
    lemma_push_if_contains(r3, s.operator == OperatorStance::Confirmed, ReasonCode::OperatorConfirmed);
    lemma_push_if_contains(r4, s.operator == OperatorStance::Rejected, ReasonCode::OperatorRejected);
    lemma_push_if_contains(r5, s.low_reliability, ReasonCode::LowSourceReliability);
    lemma_push_if_contains(r6, s.calibration == CalibrationBand::Good, ReasonCode::WellCalibrated);
    lemma_push_if_contains(r7, s.calibration == CalibrationBand::Poor, ReasonCode::CalibrationDrift);
}

/// The place of a reason code in the order the scorer raises codes.
pub open spec fn code_rank(c: ReasonCode) -> int {
    match c {
        ReasonCode::SingleSourceOnly => 0,
        ReasonCode::MultiSourceCorroboration => 0,
        ReasonCode::StaleContribution => 1,
        ReasonCode::SensorDegraded => 2,
        ReasonCode::ConflictDetected => 3,
        ReasonCode::OperatorConfirmed => 4,
        ReasonCode::OperatorRejected => 5,
        ReasonCode::LowSourceReliability => 6,
        ReasonCode::WellCalibrated => 7,
        ReasonCode::CalibrationDrift => 8,
    }
}

/// The reason codes come in a fixed order, each at most once, and the
/// first says whether more than one source corroborates the track.
#[verifier::rlimit(40)]
pub proof fn lemma_reason_code_order(s: ScoreSignals)
    ensures
        reason_code_list(s).len() >= 1,
        reason_code_list(s)[0] == (if s.distinct_sources >= 2 {
            ReasonCode::MultiSourceCorroboration
        } else {
            ReasonCode::SingleSourceOnly
        }),
        forall|i: int, j: int|
            0 <= i < j < reason_code_list(s).len() ==> code_rank(#[trigger] reason_code_list(s)[i]) < code_rank(
                #[trigger] reason_code_list(s)[j],
            ),
{
    let r0 = if s.distinct_sources >= 2 {
        seq![ReasonCode::MultiSourceCorroboration]
    } else {
        seq![ReasonCode::SingleSourceOnly]
    };
    let r1 = push_if(r0, s.stale, ReasonCode::StaleContribution);
    let r2 = push_if(r1, s.sensor_degraded, ReasonCode::SensorDegraded);
    let r3 = push_if(r2, s.conflict_count > 0, ReasonCode::ConflictDetected);
    let r4 = push_if(r3, s.operator == OperatorStance::Confirmed, ReasonCode::OperatorConfirmed);
    let r5 = push_if(r4, s.operator == OperatorStance::Rejected, ReasonCode::OperatorRejected);
    let r6 = push_if(r5, s.low_reliability, ReasonCode::LowSourceReliability);
    let r7 = push_if(r6, s.calibration == CalibrationBand::Good, ReasonCode::WellCalibrated);
    lemma_push_if_ranked(r0, s.stale, ReasonCode::StaleContribution);
    lemma_push_if_ranked(r1, s.sensor_degraded, ReasonCode::SensorDegraded);
    lemma_push_if_ranked(r2, s.conflict_count > 0, ReasonCode::ConflictDetected);
    lemma_push_if_ranked(r3, s.operator == OperatorStance::Confirmed, ReasonCode::OperatorConfirmed);
    lemma_push_if_ranked(r4, s.operator == OperatorStance::Rejected, ReasonCode::OperatorRejected);
    lemma_push_if_ranked(r5, s.low_reliability, ReasonCode::LowSourceReliability);
    lemma_push_if_ranked(r6, s.calibration == CalibrationBand::Good, ReasonCode::WellCalibrated);
    lemma_push_if_ranked(r7, s.calibration == CalibrationBand::Poor, ReasonCode::CalibrationDrift);
}

/// Pushing a code ranked after every code present keeps the ranks rising.
proof fn lemma_push_if_ranked(codes: Seq<ReasonCode>, cond: bool, code: ReasonCode)
    requires
        codes.len() >= 1,
        forall|i: int, j: int| 0 <= i < j < codes.len() ==> code_rank(#[trigger] codes[i]) < code_rank(#[trigger] codes[j]),
        forall|i: int| 0 <= i < codes.len() ==> code_rank(#[trigger] codes[i]) < code_rank(code),
    ensures
        push_if(codes, cond, code).len() >= 1,
        push_if(codes, cond, code)[0] == codes[0],
        forall|i: int| 0 <= i < push_if(codes, cond, code).len() ==> code_rank(#[trigger] push_if(codes, cond, code)[i]) <= code_rank(code),
        forall|i: int, j: int|
            0 <= i < j < push_if(codes, cond, code).len() ==> code_rank(#[trigger] push_if(codes, cond, code)[i])
                < code_rank(#[trigger] push_if(codes, cond, code)[j]),
{
    if cond {
        let out = codes.push(code);
        assert forall|i: int| 0 <= i < out.len() implies code_rank(#[trigger] out[i]) <= code_rank(code) by {
            if i < codes.len() {
                assert(out[i] == codes[i]);
            }
        }
        assert forall|i: int, j: int| 0 <= i < j < out.len() implies code_rank(#[trigger] out[i]) < code_rank(
            #[trigger] out[j],
        ) by {
            assert(out[i] == codes[i]);
            if j < codes.len() {
                assert(out[j] == codes[j]);
            }
        }
    }
}

/// The reason codes explaining a score. There is always at least one: the
/// first says whether more than one source corroborates the track.
pub fn reason_codes(s: &ScoreSignals) -> (codes: Vec<ReasonCode>)
    ensures
        codes@ == reason_code_list(*s),
        codes@.len() >= 1,
        codes@.contains(ReasonCode::SingleSourceOnly) <==> s.distinct_sources < 2,
        codes@.contains(ReasonCode::MultiSourceCorroboration) <==> s.distinct_sources >= 2,
        codes@.contains(ReasonCode::StaleContribution) <==> s.stale,
        codes@.contains(ReasonCode::SensorDegraded) <==> s.sensor_degraded,
        codes@.contains(ReasonCode::ConflictDetected) <==> s.conflict_count > 0,
        codes@.contains(ReasonCode::OperatorConfirmed) <==> s.operator == OperatorStance::Confirmed,
        codes@.contains(ReasonCode::OperatorRejected) <==> s.operator == OperatorStance::Rejected,
        codes@.contains(ReasonCode::LowSourceReliability) <==> s.low_reliability,
        codes@.contains(ReasonCode::WellCalibrated) <==> s.calibration == CalibrationBand::Good,
        codes@.contains(ReasonCode::CalibrationDrift) <==> s.calibration == CalibrationBand::Poor,
{
    proof {
        lemma_reason_code_membership(*s);
    }
    let mut codes: Vec<ReasonCode> = Vec::new();
    if s.distinct_sources >= 2 {
        codes.push(ReasonCode::MultiSourceCorroboration);
    } else {
        codes.push(ReasonCode::SingleSourceOnly);
    }
    if s.stale {
        codes.push(ReasonCode::StaleContribution);
    }
    if s.sensor_degraded {
        codes.push(ReasonCode::SensorDegraded);
    }
    if s.conflict_count > 0 {
        codes.push(ReasonCode::ConflictDetected);
    }
    match s.operator {
        OperatorStance::Confirmed => codes.push(ReasonCode::OperatorConfirmed),
        OperatorStance::Rejected => codes.push(ReasonCode::OperatorRejected),
        _ => {},
    }
    if s.low_reliability {
        codes.push(ReasonCode::LowSourceReliability);
    }
    match s.calibration {
        CalibrationBand::Good => codes.push(ReasonCode::WellCalibrated),
        CalibrationBand::Poor => codes.push(ReasonCode::CalibrationDrift),
        _ => {},
    }
    assert(codes@ =~= reason_code_list(*s));
    codes
}

/// The calibration status of a calibration score.
pub open spec fn status_of(band: CalibrationBand) -> CalibrationStatus {
    match band {
        CalibrationBand::Good => CalibrationStatus::Calibrated,
        CalibrationBand::Fair => CalibrationStatus::Drifting,
        _ => CalibrationStatus::Uncalibrated,
    }
}

/// A track is `Calibrated` exactly on a good calibration history,
/// `Drifting` exactly on a fair one, and `Uncalibrated` with no history or a
/// poor one.
pub proof fn lemma_calibration_status(band: CalibrationBand)
    ensures
        status_of(band) == CalibrationStatus::Calibrated <==> band == CalibrationBand::Good,
        status_of(band) == CalibrationStatus::Drifting <==> band == CalibrationBand::Fair,
        status_of(band) == CalibrationStatus::Uncalibrated <==> (band == CalibrationBand::NoHistory || band
            == CalibrationBand::Poor),
{
}

pub fn calibration_status(band: CalibrationBand) -> (st: CalibrationStatus)
    ensures
        st == status_of(band),
        st == CalibrationStatus::Calibrated <==> band == CalibrationBand::Good,
        st == CalibrationStatus::Drifting <==> band == CalibrationBand::Fair,
        st == CalibrationStatus::Uncalibrated <==> (band == CalibrationBand::NoHistory || band == CalibrationBand::Poor),
{
    match band {
        CalibrationBand::NoHistory => CalibrationStatus::Uncalibrated,
        CalibrationBand::Good => CalibrationStatus::Calibrated,
        CalibrationBand::Fair => CalibrationStatus::Drifting,
        CalibrationBand::Poor => CalibrationStatus::Uncalibrated,
    }
}

/// A score is explained as degraded when a concrete negative signal drags it
/// down: a low score, a conflict, or a degraded sensor.
pub fn is_degraded(s: &ScoreSignals) -> (d: bool)
    ensures
        d == (s.low_score || s.conflict_count > 0 || s.sensor_degraded),
{
    s.low_score || s.conflict_count > 0 || s.sensor_degraded
}

} // verus!
