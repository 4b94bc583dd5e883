use vstd::prelude::*;
use vstd::seq_lib::*;

verus! {

/// Fewer samples than this give no estimate at all.
pub const MIN_STATS_FOR_ESTIMATE: usize = 10;

/// Fewer samples than this (but at least the minimum) give a low-confidence
/// estimate.
pub const LOW_CONFIDENCE_THRESHOLD: usize = 20;

/// Fewer samples than this (but at least the low threshold) give a
/// medium-confidence estimate; at least this many give high confidence.
pub const MEDIUM_CONFIDENCE_THRESHOLD: usize = 50;

/// Upper bound on every duration the estimator accepts, in milliseconds
/// (about 139 years). The bound is what lets the exact rational arithmetic
/// below fit in 128-bit integers.
pub const MAX_TRACKED_MS: u64 = 4398046511103;

/// A single transcription timing measurement.
#[derive(Clone, Debug)]
pub struct TranscriptionStat {
    /// Duration of the audio in milliseconds.
    pub audio_duration_ms: u64,
    /// Time taken to transcribe, in milliseconds.
    pub transcription_time_ms: u64,
    /// ISO 8601 timestamp of when this transcription occurred.
    pub timestamp: String,
    /// The model used, for detecting model changes.
    pub model_path: String,
}

/// The mathematical value of a measurement.
#[verifier::ext_equal]
pub ghost struct TranscriptionStatV {
    pub audio_duration_ms: u64,
    pub transcription_time_ms: u64,
    pub timestamp: Seq<char>,
    pub model_path: Seq<char>,
}

impl View for TranscriptionStat {
    type V = TranscriptionStatV;

    open spec fn view(&self) -> TranscriptionStatV {
        TranscriptionStatV {
            audio_duration_ms: self.audio_duration_ms,
            transcription_time_ms: self.transcription_time_ms,
            timestamp: self.timestamp@,
            model_path: self.model_path@,
        }
    }
}

/// Container for all transcription timing measurements.
#[derive(Clone, Debug)]
pub struct TranscriptionStats {
    /// Schema version for future migrations.
    pub version: u32,
    /// All recorded measurements.
    pub stats: Vec<TranscriptionStat>,
}

impl Default for TranscriptionStats {
    /// An empty container at the current schema version.
    fn default() -> (r: Self)
        ensures
            r.version == 1,
            r.stats@.len() == 0,
    {
        TranscriptionStats { version: 1, stats: Vec::new() }
    }
}

/// Confidence tier of an estimate, decided by the sample count alone.
#[derive(Clone, Copy, Debug, PartialEq, Eq, Structural)]
pub enum EstimateConfidence {
    NoEstimate,
    Low,
    Medium,
    High,
}

/// An estimated transcription time.
#[derive(Clone, Copy, Debug, PartialEq, Eq, Structural)]
pub struct TranscriptionEstimate {
    /// Estimated transcription time in milliseconds.
    pub estimated_ms: u64,
    /// Confidence tier, from the number of samples the estimate rests on.
    pub confidence: EstimateConfidence,
}

/// A measurement the estimator can accept: both times under the tracking
/// bound, so that products of ratios fit the machine arithmetic.
pub open spec fn stat_wf(s: TranscriptionStat) -> bool {
    s.audio_duration_ms <= MAX_TRACKED_MS && s.transcription_time_ms <= MAX_TRACKED_MS
}

/// A ratio as an exact fraction: (transcription time, audio duration).
/// Well-formed when the denominator is positive and both parts are bounded.
pub open spec fn ratio_wf(p: (u64, u64)) -> bool {
    p.1 > 0 && p.0 <= MAX_TRACKED_MS && p.1 <= MAX_TRACKED_MS
}

/// The ratios of all measurements with a positive duration, in order.
pub open spec fn ratios_of(stats: Seq<TranscriptionStat>) -> Seq<(u64, u64)>
    decreases stats.len(),
{
    if stats.len() == 0 {
        Seq::empty()
    } else {
        let rest = ratios_of(stats.drop_last());
        let s = stats.last();
        if s.audio_duration_ms > 0 {
            rest.push((s.transcription_time_ms, s.audio_duration_ms))
        } else {
            rest
        }
    }
}

/// Fraction order by cross multiplication: a.0/a.1 <= b.0/b.1.
pub open spec fn ratio_le(a: (u64, u64), b: (u64, u64)) -> bool {
    a.0 * b.1 <= b.0 * a.1
}

/// Nondecreasing under the fraction order.
pub open spec fn ratios_sorted(s: Seq<(u64, u64)>) -> bool {
    forall|i: int, j: int| 0 <= i < j < s.len() ==> #[trigger] ratio_le(s[i], s[j])
}

/// The fraction order is transitive on fractions with positive denominators.
pub proof fn lemma_ratio_le_trans(a: (u64, u64), b: (u64, u64), c: (u64, u64))
    requires
        a.1 > 0,
        b.1 > 0,
        c.1 > 0,
        ratio_le(a, b),
        ratio_le(b, c),
    ensures
        ratio_le(a, c),
{
    assert(a.0 * c.1 <= c.0 * a.1) by (nonlinear_arith)
        requires
            a.1 > 0,
            b.1 > 0,
            c.1 > 0,
            a.0 * b.1 <= b.0 * a.1,
            b.0 * c.1 <= c.0 * b.1;
}

/// The estimate for `target_ms` given the sorted ratios: the target times the
/// median ratio, the median of an even count being the average of the two
/// middle fractions. Exact rational arithmetic, rounded down at the end.
pub open spec fn spec_estimate_ms(target_ms: u64, sorted: Seq<(u64, u64)>) -> int
    recommends
        sorted.len() > 0,
{
    let n = sorted.len() as int;
    if n % 2 == 1 {
        let m = sorted[n / 2];
        (target_ms * m.0) / (m.1 as int)
    } else {
        let a = sorted[n / 2 - 1];
        let b = sorted[n / 2];
        (target_ms * (a.0 * b.1 + b.0 * a.1)) / (2 * (a.1 * b.1))
    }
}

/// Clamp an exact value into the u64 range.
pub open spec fn clamp_u64(x: int) -> int {
    if x > u64::MAX as int {
        u64::MAX as int
    } else {
        x
    }
}

/// Exact fraction comparison by cross multiplication.
fn ratio_le_exec(a: (u64, u64), b: (u64, u64)) -> (r: bool)
    ensures
        r == ratio_le(a, b),
{
    proof {
        assert((a.0 as int) * (b.1 as int) < 0x100000000000000000000000000000000
            && (b.0 as int) * (a.1 as int) < 0x100000000000000000000000000000000)
            by (nonlinear_arith)
            requires
                0 <= a.0 as int <= 0xffffffffffffffff,
                0 <= b.1 as int <= 0xffffffffffffffff,
                0 <= b.0 as int <= 0xffffffffffffffff,
                0 <= a.1 as int <= 0xffffffffffffffff;
    }
    (a.0 as u128) * (b.1 as u128) <= (b.0 as u128) * (a.1 as u128)
}

/// Sort the ratios into nondecreasing fraction order, by insertion.
fn sort_ratios(input: &Vec<(u64, u64)>) -> (out: Vec<(u64, u64)>)
    requires
        forall|k: int| 0 <= k < input@.len() ==> ratio_wf(#[trigger] input@[k]),
    ensures
        out@.to_multiset() == input@.to_multiset(),
        out@.len() == input@.len(),
        ratios_sorted(out@),
        forall|k: int| 0 <= k < out@.len() ==> ratio_wf(#[trigger] out@[k]),
{
    let mut out: Vec<(u64, u64)> = Vec::new();
    let mut i: usize = 0;
    proof {
        assert(input@.subrange(0, 0) =~= Seq::<(u64, u64)>::empty());
        Seq::<(u64, u64)>::empty().to_multiset_ensures();
        assert(out@.to_multiset() =~= input@.subrange(0, 0).to_multiset());
    }
    while i < input.len()
        invariant
            i <= input@.len(),
            out@.len() == i,
            out@.to_multiset() == input@.subrange(0, i as int).to_multiset(),
            ratios_sorted(out@),
            forall|k: int| 0 <= k < out@.len() ==> ratio_wf(#[trigger] out@[k]),
            forall|k: int| 0 <= k < input@.len() ==> ratio_wf(#[trigger] input@[k]),
        decreases input@.len() - i,
    {
        let x = input[i];
        let mut pos: usize = 0;
        while pos < out.len() && ratio_le_exec(out[pos], x)
            invariant
                pos <= out@.len(),
                forall|k: int| 0 <= k < pos ==> ratio_le(#[trigger] out@[k], x),
                ratios_sorted(out@),
                forall|k: int| 0 <= k < out@.len() ==> ratio_wf(#[trigger] out@[k]),
            decreases out@.len() - pos,
        {
            pos = pos + 1;
        }
        proof {
            if pos < out@.len() {
                assert(!ratio_le(out@[pos as int], x));
                assert(ratio_le(x, out@[pos as int]));
                assert forall|k: int| pos <= k < out@.len() implies ratio_le(
                    x,
                    #[trigger] out@[k],
                ) by {
                    if k > pos {
                        assert(ratio_le(out@[pos as int], out@[k]));
                        lemma_ratio_le_trans(x, out@[pos as int], out@[k]);
                    }
                }
            }
            out@.insert_ensures(pos as int, x);
            broadcast use to_multiset_insert;
        }
        let ghost prev = out@;
        out.insert(pos, x);
        proof {
            assert(input@.subrange(0, (i + 1) as int) =~= input@.subrange(0, i as int).push(
                input@[i as int],
            ));
            broadcast use to_multiset_build;
            assert(out@.to_multiset() =~= input@.subrange(0, (i + 1) as int).to_multiset());
            assert forall|p: int, q: int| 0 <= p < q < out@.len() implies #[trigger] ratio_le(
                out@[p],
                out@[q],
            ) by {
                prev.insert_ensures(pos as int, x);
            }
        }
        i = i + 1;
    }
    proof {
        assert(input@.subrange(0, input@.len() as int) =~= input@);
    }
    out
}

/// Derive a transcription time estimate for audio of `audio_duration_ms`
/// from historical measurements.
///
/// No estimate exists when fewer than `MIN_STATS_FOR_ESTIMATE` measurements
/// are recorded, or when none of them has a positive audio duration.
/// Otherwise the estimate is the target duration times the median of the
/// time/duration ratios (the median resists outliers), and the confidence
/// tier reflects the measurement count alone.
///
/// The duration bounds in `stat_wf` are what the 128-bit exact arithmetic
/// requires; every measurement produced by this crate satisfies them.
pub fn estimate_transcription_time(stats: &TranscriptionStats, audio_duration_ms: u64) -> (r:
    Option<TranscriptionEstimate>)
    requires
        forall|k: int| 0 <= k < stats.stats@.len() ==> stat_wf(#[trigger] stats.stats@[k]),
        audio_duration_ms <= MAX_TRACKED_MS,
    ensures
        r.is_none() <==> (stats.stats@.len() < MIN_STATS_FOR_ESTIMATE || ratios_of(
            stats.stats@,
        ).len() == 0),
        r matches Some(e) ==> {
            &&& (e.confidence == EstimateConfidence::Low <==> stats.stats@.len()
                < LOW_CONFIDENCE_THRESHOLD)
            &&& (e.confidence == EstimateConfidence::Medium <==> LOW_CONFIDENCE_THRESHOLD
                <= stats.stats@.len() < MEDIUM_CONFIDENCE_THRESHOLD)
            &&& (e.confidence == EstimateConfidence::High <==> stats.stats@.len()
                >= MEDIUM_CONFIDENCE_THRESHOLD)
            &&& exists|sorted: Seq<(u64, u64)>|
                {
                    &&& sorted.to_multiset() == ratios_of(stats.stats@).to_multiset()
                    &&& ratios_sorted(sorted)
                    &&& sorted.len() == ratios_of(stats.stats@).len()
                    &&& (forall|k: int| 0 <= k < sorted.len() ==> ratio_wf(#[trigger] sorted[k]))
                    &&& e.estimated_ms == clamp_u64(spec_estimate_ms(audio_duration_ms, sorted))
                }
        },
{
    if stats.stats.len() < MIN_STATS_FOR_ESTIMATE {
        return None;
    }
    let mut ratios: Vec<(u64, u64)> = Vec::new();
    let mut i: usize = 0;
    while i < stats.stats.len()
        invariant
            i <= stats.stats@.len(),
            ratios@ == ratios_of(stats.stats@.subrange(0, i as int)),
            forall|k: int| 0 <= k < stats.stats@.len() ==> stat_wf(#[trigger] stats.stats@[k]),
            forall|k: int| 0 <= k < ratios@.len() ==> ratio_wf(#[trigger] ratios@[k]),
        decreases stats.stats@.len() - i,
    {
        proof {
            assert(stats.stats@.subrange(0, (i + 1) as int).drop_last() =~= stats.stats@.subrange(
                0,
                i as int,
            ));
            assert(stats.stats@.subrange(0, (i + 1) as int).last() == stats.stats@[i as int]);
        }
        let s = &stats.stats[i];
        if s.audio_duration_ms > 0 {
            ratios.push((s.transcription_time_ms, s.audio_duration_ms));
        }
        i = i + 1;
    }
    proof {
        assert(stats.stats@.subrange(0, stats.stats@.len() as int) =~= stats.stats@);
    }
    if ratios.len() == 0 {
        return None;
    }
    let sorted = sort_ratios(&ratios);
    proof {
        ratios@.to_multiset_ensures();
        sorted@.to_multiset_ensures();
    }
    let n = sorted.len();
    let target = audio_duration_ms as u128;
    let estimated: u128 = if n % 2 == 1 {
        let m = sorted[n / 2];
        proof {
            lemma_mul_bounded(target as int, m.0 as int, MAX_TRACKED_MS as int);
        }
        (target * (m.0 as u128)) / (m.1 as u128)
    } else {
        let a = sorted[n / 2 - 1];
        let b = sorted[n / 2];
        proof {
            lemma_mul_bounded(a.0 as int, b.1 as int, MAX_TRACKED_MS as int);
            lemma_mul_bounded(b.0 as int, a.1 as int, MAX_TRACKED_MS as int);
            lemma_mul_bounded(a.1 as int, b.1 as int, MAX_TRACKED_MS as int);
            assert((a.1 as int) * (b.1 as int) > 0) by (nonlinear_arith)
                requires
                    a.1 as int > 0,
                    b.1 as int > 0;
        }
        let num: u128 = (a.0 as u128) * (b.1 as u128) + (b.0 as u128) * (a.1 as u128);
        let den: u128 = 2 * ((a.1 as u128) * (b.1 as u128));
        proof {
            assert((target as int) * (num as int) < 0x100000000000000000000000000000000)
                by (nonlinear_arith)
                requires
                    0 <= target as int <= 4398046511103,
                    0 <= num as int <= 2 * 4398046511103 * 4398046511103;
        }
        (target * num) / den
    };
    let estimated_ms: u64 = if estimated > 0xffffffffffffffff {
        u64::MAX
    } else {
        estimated as u64
    };
    let confidence = if stats.stats.len() < LOW_CONFIDENCE_THRESHOLD {
        EstimateConfidence::Low
    } else if stats.stats.len() < MEDIUM_CONFIDENCE_THRESHOLD {
        EstimateConfidence::Medium
    } else {
        EstimateConfidence::High
    };
    let e = TranscriptionEstimate { estimated_ms, confidence };
    proof {
        assert(e.estimated_ms == clamp_u64(spec_estimate_ms(audio_duration_ms, sorted@)));
    }
    Some(e)
}

/// Products of bounded nonnegative values are bounded.
proof fn lemma_mul_bounded(x: int, y: int, bound: int)
    requires
        0 <= x <= bound,
        0 <= y <= bound,
    ensures
        0 <= x * y <= bound * bound,
{
    assert(0 <= x * y <= bound * bound) by (nonlinear_arith)
        requires
            0 <= x <= bound,
            0 <= y <= bound;
}

} // verus!
