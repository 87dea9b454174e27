//! The counting behind the eight evaluation metrics of a replay run.
//!
//! Every metric is a ratio, count or mean of whole numbers gathered during
//! the run; this module fixes those whole numbers, the denominators (never
//! zero), the units and the explanatory text of each metric.

use vstd::prelude::*;
use vstd::string::*;

use crate::error::FabricError;
use crate::ids::ObservationId;
use crate::model::{id_views, FusedTrack, FusedTrackView, MetricKind, ProvenanceOp, ProvenanceRecord, ProvenanceRecordView};
use crate::provenance::{chain_complete, chain_covers, chain_of, contains_observation, views, InMemoryProvenanceStore, ProvenanceStore};
use crate::text::{decimal, push_decimal};

verus! {

/// The whole-number results of a replay run.
pub struct MetricCounts {
    /// Number of real targets in the scenario.
    pub ground_truth_tracks: usize,
    pub confirmed_tracks: usize,
    pub confirmation_latencies_ms: Vec<i64>,
    pub stale_rejections: u64,
    pub total_conflicts: usize,
    pub accepted_observations: usize,
    pub operator_overrides: usize,
}

/// Numerators and denominators of the metrics.
#[derive(Debug, Clone, Copy, PartialEq, Eq, Structural)]
pub struct MetricTally {
    /// Sum and number of the confirmation latencies (their mean is the
    /// latency metric; no latencies give zero).
    pub latency_sum_ms: i64,
    pub latency_count: usize,
    /// Confirmed tracks beyond the ground truth.
    pub false_tracks: usize,
    /// Ground-truth targets left unconfirmed.
    pub missed_tracks: usize,
    /// Confirmed tracks that match a ground-truth target.
    pub true_positives: usize,
    /// `confirmed_tracks`, at least one.
    pub confirmed_base: usize,
    /// `ground_truth_tracks`, at least one.
    pub ground_truth_base: usize,
    /// `accepted_observations`, at least one.
    pub accepted_base: usize,
}

/// The sum of `s`.
pub open spec fn sum_of(s: Seq<i64>) -> int
    decreases s.len(),
{
    if s.len() == 0 {
        0
    } else {
        sum_of(s.drop_last()) + s.last()
    }
}

/// Every running sum of `s` stays within `i64`.
pub open spec fn running_sums_fit(s: Seq<i64>) -> bool {
    forall|k: int| 0 <= k <= s.len() ==> i64::MIN <= #[trigger] sum_of(s.take(k)) <= i64::MAX
}

pub open spec fn at_least_one(n: usize) -> usize {
    if n == 0 {
        1
    } else {
        n
    }
}

/// `a - b`, or zero when `b` is the larger.
pub open spec fn minus_or_zero(a: usize, b: usize) -> usize {
    if a >= b {
        (a - b) as usize
    } else {
        0
    }
}

/// The confirmed tracks split into true positives and false tracks, and the
/// ground truth into true positives and missed tracks, with never both a
/// false and a missed track; every denominator is at least one and is the
/// count itself whenever that count is not zero.
pub proof fn lemma_tally_balance(confirmed: usize, ground_truth: usize, accepted: usize)
    ensures
        minus_or_zero(confirmed, ground_truth) + (if confirmed <= ground_truth {
            confirmed
        } else {
            ground_truth
        }) == confirmed,
        minus_or_zero(ground_truth, confirmed) + (if confirmed <= ground_truth {
            confirmed
        } else {
            ground_truth
        }) == ground_truth,
        minus_or_zero(confirmed, ground_truth) == 0 || minus_or_zero(ground_truth, confirmed) == 0,
        at_least_one(confirmed) >= 1 && (confirmed >= 1 ==> at_least_one(confirmed) == confirmed),
        at_least_one(ground_truth) >= 1 && (ground_truth >= 1 ==> at_least_one(ground_truth) == ground_truth),
        at_least_one(accepted) >= 1 && (accepted >= 1 ==> at_least_one(accepted) == accepted),
{
}

/// Gathers the numerators and denominators of the metrics.
pub fn tally(c: &MetricCounts) -> (t: MetricTally)
    requires
        running_sums_fit(c.confirmation_latencies_ms@),
    ensures
        t.latency_sum_ms == sum_of(c.confirmation_latencies_ms@),
        t.latency_count == c.confirmation_latencies_ms@.len(),
        t.false_tracks == minus_or_zero(c.confirmed_tracks, c.ground_truth_tracks),
        t.missed_tracks == minus_or_zero(c.ground_truth_tracks, c.confirmed_tracks),
        t.true_positives == (if c.confirmed_tracks <= c.ground_truth_tracks {
            c.confirmed_tracks
        } else {
            c.ground_truth_tracks
        }),
        t.confirmed_base == at_least_one(c.confirmed_tracks),
        t.ground_truth_base == at_least_one(c.ground_truth_tracks),
        t.accepted_base == at_least_one(c.accepted_observations),
        t.false_tracks + t.true_positives == c.confirmed_tracks,
        t.missed_tracks + t.true_positives == c.ground_truth_tracks,
        t.false_tracks == 0 || t.missed_tracks == 0,
        t.confirmed_base >= 1 && (c.confirmed_tracks >= 1 ==> t.confirmed_base == c.confirmed_tracks),
        t.ground_truth_base >= 1 && (c.ground_truth_tracks >= 1 ==> t.ground_truth_base == c.ground_truth_tracks),
        t.accepted_base >= 1 && (c.accepted_observations >= 1 ==> t.accepted_base == c.accepted_observations),
{
    let lat = &c.confirmation_latencies_ms;
    let n = lat.len();
    let mut sum: i64 = 0;
    let mut i: usize = 0;
    while i < n
        invariant
            n == lat@.len(),
            i <= n,
            running_sums_fit(lat@),
            sum == sum_of(lat@.take(i as int)),
        decreases n - i,
    {
        proof {
            assert(lat@.take(i + 1).drop_last() =~= lat@.take(i as int));
            assert(i64::MIN <= sum_of(lat@.take(i + 1)) <= i64::MAX);
        }
        sum = sum + lat[i];
        i = i + 1;
    }
    assert(lat@.take(n as int) =~= lat@);
    let confirmed = c.confirmed_tracks;
    let gt = c.ground_truth_tracks;
    MetricTally {
        latency_sum_ms: sum,
        latency_count: n,
        false_tracks: if confirmed >= gt {
            confirmed - gt
        } else {
            0
        },
        missed_tracks: if gt >= confirmed {
            gt - confirmed
        } else {
            0
        },
        true_positives: if confirmed <= gt {
            confirmed
        } else {
            gt
        },
        confirmed_base: if confirmed == 0 {
            1
        } else {
            confirmed
        },
        ground_truth_base: if gt == 0 {
            1
        } else {
            gt
        },
        accepted_base: if c.accepted_observations == 0 {
            1
        } else {
            c.accepted_observations
        },
    }
}

/// The eight metrics, in report order.
pub fn metric_kinds() -> (kinds: Vec<MetricKind>)
    ensures
        kinds@ == seq![
            MetricKind::TrackConfirmationLatencyMs,
            MetricKind::FalseTrackRate,
            MetricKind::MissedTrackRate,
            MetricKind::ConfidenceCalibrationError,
            MetricKind::StaleDataRejectionCount,
            MetricKind::ConflictRate,
            MetricKind::OperatorOverrideRate,
            MetricKind::ProvenanceCompleteness,
        ],
{
    let mut v: Vec<MetricKind> = Vec::new();
    v.push(MetricKind::TrackConfirmationLatencyMs);
    v.push(MetricKind::FalseTrackRate);
    v.push(MetricKind::MissedTrackRate);
    v.push(MetricKind::ConfidenceCalibrationError);
    v.push(MetricKind::StaleDataRejectionCount);
    v.push(MetricKind::ConflictRate);
    v.push(MetricKind::OperatorOverrideRate);
    v.push(MetricKind::ProvenanceCompleteness);
    assert(v@ =~= seq![
        MetricKind::TrackConfirmationLatencyMs,
        MetricKind::FalseTrackRate,
        MetricKind::MissedTrackRate,
        MetricKind::ConfidenceCalibrationError,
        MetricKind::StaleDataRejectionCount,
        MetricKind::ConflictRate,
        MetricKind::OperatorOverrideRate,
        MetricKind::ProvenanceCompleteness,
    ]);
    v
}

/// The unit a metric is reported in.
pub open spec fn unit_text(kind: MetricKind) -> Seq<char> {
    match kind {
        MetricKind::TrackConfirmationLatencyMs => "ms"@,
        MetricKind::ConfidenceCalibrationError => "abs_error"@,
        MetricKind::StaleDataRejectionCount => "count"@,
        _ => "ratio"@,
    }
}

pub fn metric_unit(kind: MetricKind) -> (u: &'static str)
    ensures
        u@ == unit_text(kind),
{
    match kind {
        MetricKind::TrackConfirmationLatencyMs => "ms",
        MetricKind::ConfidenceCalibrationError => "abs_error",
        MetricKind::StaleDataRejectionCount => "count",
        _ => "ratio",
    }
}

/// The explanation attached to a metric, for every metric but the
/// calibration error (whose text quotes two fractions).
pub open spec fn detail_text(kind: MetricKind, c: &MetricCounts) -> Option<Seq<char>> {
    let t_false = minus_or_zero(c.confirmed_tracks, c.ground_truth_tracks);
    let t_missed = minus_or_zero(c.ground_truth_tracks, c.confirmed_tracks);
    match kind {
        MetricKind::TrackConfirmationLatencyMs => Some(
            "mean over "@ + decimal(c.confirmation_latencies_ms@.len()) + " confirmed track(s)"@,
        ),
        MetricKind::FalseTrackRate => Some(
            decimal(t_false as nat) + " false / "@ + decimal(c.confirmed_tracks as nat) + " confirmed"@,
        ),
        MetricKind::MissedTrackRate => Some(
            decimal(t_missed as nat) + " missed / "@ + decimal(c.ground_truth_tracks as nat)
                + " ground-truth"@,
        ),
        MetricKind::ConfidenceCalibrationError => None,
        MetricKind::StaleDataRejectionCount => Some("observations rejected as stale before fusion"@),
        MetricKind::ConflictRate => Some(
            decimal(c.total_conflicts as nat) + " conflicts / "@ + decimal(c.accepted_observations as nat)
                + " accepted obs"@,
        ),
        MetricKind::OperatorOverrideRate => Some(
            decimal(c.operator_overrides as nat) + " overrides / "@ + decimal(
                c.accepted_observations as nat,
            ) + " accepted obs"@,
        ),
        MetricKind::ProvenanceCompleteness => Some(
            "fraction of tracks with a complete provenance chain"@,
        ),
    }
}

/// `a`, `b` in decimal, then `c`: the shape of the ratio explanations.
fn two_counts(a: usize, mid: &str, b: usize, tail: &str) -> (s: String)
    ensures
        s@ == decimal(a as nat) + mid@ + decimal(b as nat) + tail@,
{
    let mut s = String::new();
    push_decimal(&mut s, a as u64);
    s.append(mid);
    push_decimal(&mut s, b as u64);
    s.append(tail);
    assert(s@ =~= decimal(a as nat) + mid@ + decimal(b as nat) + tail@);
    s
}

pub fn metric_detail(kind: MetricKind, c: &MetricCounts) -> (d: Option<String>)
    ensures
        match d {
            Some(s) => detail_text(kind, c) == Some(s@),
            None => detail_text(kind, c) is None,
        },
{
    let confirmed = c.confirmed_tracks;
    let gt = c.ground_truth_tracks;
    match kind {
        MetricKind::TrackConfirmationLatencyMs => {
            proof {
                reveal_strlit("mean over ");
                reveal_strlit(" confirmed track(s)");
            }
            let mut s = String::from_str("mean over ");
            push_decimal(&mut s, c.confirmation_latencies_ms.len() as u64);
            s.append(" confirmed track(s)");
            Some(s)
        },
        MetricKind::FalseTrackRate => {
            proof {
                reveal_strlit(" false / ");
                reveal_strlit(" confirmed");
            }
            let f = if confirmed >= gt {
                confirmed - gt
            } else {
                0
            };
            Some(two_counts(f, " false / ", confirmed, " confirmed"))
        },
        MetricKind::MissedTrackRate => {
            proof {
                reveal_strlit(" missed / ");
                reveal_strlit(" ground-truth");
            }
            let m = if gt >= confirmed {
                gt - confirmed
            } else {
                0
            };
            Some(two_counts(m, " missed / ", gt, " ground-truth"))
        },
        MetricKind::ConfidenceCalibrationError => None,
        MetricKind::StaleDataRejectionCount => {
            proof {
                reveal_strlit("observations rejected as stale before fusion");
            }
            Some(String::from_str("observations rejected as stale before fusion"))
        },
        MetricKind::ConflictRate => {
            proof {
                reveal_strlit(" conflicts / ");
                reveal_strlit(" accepted obs");
            }
            Some(two_counts(c.total_conflicts, " conflicts / ", c.accepted_observations, " accepted obs"))
        },
        MetricKind::OperatorOverrideRate => {
            proof {
                reveal_strlit(" overrides / ");
                reveal_strlit(" accepted obs");
            }
            Some(two_counts(c.operator_overrides, " overrides / ", c.accepted_observations, " accepted obs"))
        },
        MetricKind::ProvenanceCompleteness => {
            proof {
                reveal_strlit("fraction of tracks with a complete provenance chain");
            }
            Some(String::from_str("fraction of tracks with a complete provenance chain"))
        },
    }
}

/// The number of `tracks` whose provenance in `records` is complete.
pub open spec fn complete_count(records: Seq<ProvenanceRecordView>, tracks: Seq<FusedTrackView>) -> nat
    decreases tracks.len(),
{
    if tracks.len() == 0 {
        0
    } else {
        complete_count(records, tracks.drop_last()) + (if chain_complete(
            chain_of(records, tracks.last().track_id),
            tracks.last(),
        ) {
            1nat
        } else {
            0nat
        })
    }
}

/// Whether some record of `chain` lists `obs` among its contributors.
fn chain_mentions(chain: &Vec<ProvenanceRecord>, obs: &ObservationId) -> (found: bool)
    ensures
        found == chain_covers(views(chain@), obs@),
{
    let ghost cv = views(chain@);
    let n = chain.len();
    let mut k: usize = 0;
    while k < n
        invariant
            n == chain@.len(),
            k <= n,
            cv == views(chain@),
            cv.len() == n,
            forall|m: int| 0 <= m < k ==> !(#[trigger] cv[m]).contributing_observations.contains(obs@),
        decreases n - k,
    {
        if contains_observation(&chain[k].contributing_observations, obs) {
            assert(cv[k as int].contributing_observations.contains(obs@));
            return true;
        }
        k = k + 1;
    }
    false
}

/// The number of `tracks` whose provenance chain in `store` is complete.
pub fn complete_chains(store: &InMemoryProvenanceStore, tracks: &Vec<FusedTrack>) -> (res: Result<
    usize,
    FabricError,
>)
    ensures
        res matches Ok(n) && n == complete_count(
            store.records(),
            tracks@.map_values(|t: FusedTrack| t@),
        ),
{
    let ghost tv = tracks@.map_values(|t: FusedTrack| t@);
    let n = tracks.len();
    let mut complete: usize = 0;
    let mut i: usize = 0;
    while i < n
        invariant
            n == tracks@.len(),
            i <= n,
            tv == tracks@.map_values(|t: FusedTrack| t@),
            complete == complete_count(store.records(), tv.take(i as int)),
            complete <= i,
        decreases n - i,
    {
        let t = &tracks[i];
        let chain = match store.chain_for_track(&t.track_id) {
            Ok(c) => c,
            Err(e) => return Err(e),
        };
        let ghost cv = views(chain@);
        let has_created = chain.len() > 0 && chain[0].operation == ProvenanceOp::Created;
        let m = t.contributing_observations.len();
        let mut covers = true;
        let mut j: usize = 0;
        while j < m
            invariant
                m == t.contributing_observations@.len(),
                j <= m,
                cv == views(chain@),
                covers == forall|q: int| 0 <= q < j ==> chain_covers(cv, (#[trigger] t.contributing_observations@[q])@),
            decreases m - j,
        {
            let found = chain_mentions(&chain, &t.contributing_observations[j]);
            covers = covers && found;
            j = j + 1;
        }
        proof {
            assert(tv.take(i + 1).drop_last() =~= tv.take(i as int));
            assert(tv.take(i + 1).last() == t@);
            assert(t@.contributing_observations == id_views(t.contributing_observations@));
            assert(t@.contributing_observations.len() == m);
            if covers {
                assert forall|q: int| 0 <= q < t@.contributing_observations.len() implies chain_covers(
                    cv,
                    #[trigger] t@.contributing_observations[q],
                ) by {
                    assert(t@.contributing_observations[q] == t.contributing_observations@[q]@);
                }
            } else {
                let q = choose|q: int| 0 <= q < m && !chain_covers(cv, (#[trigger] t.contributing_observations@[q])@);
                assert(t@.contributing_observations[q] == t.contributing_observations@[q]@);
            }
        }
        if has_created && covers {
            complete = complete + 1;
        }
        i = i + 1;
    }
    assert(tv.take(n as int) =~= tv);
    Ok(complete)
}

} // verus!
