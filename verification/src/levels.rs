use vstd::prelude::*;

use crate::state::{RecordingState, RecordingStatus};

verus! {

/// Samples per metering window: about 50 ms of audio, giving roughly twenty
/// meter updates per second.
pub const SAMPLES_PER_LEVEL: usize = 800;

/// Number of windows reported: about one second of history.
pub const MAX_LEVELS: usize = 20;

/// Levels are reported in thousandths of the full meter.
pub const LEVEL_SCALE: u32 = 1000;

/// Root-mean-square amplitude that pegs the meter: about 5% of the 16-bit
/// full scale, a practical maximum for speech, chosen for responsiveness.
pub const SPEECH_FULL_SCALE: u32 = 1638;

/// Sum of the squares of a sample window.
pub open spec fn sum_squares(s: Seq<i16>) -> int
    decreases s.len(),
{
    if s.len() == 0 {
        0
    } else {
        sum_squares(s.drop_last()) + s.last() * s.last()
    }
}

/// `r` is the integer square root of `x`.
pub open spec fn is_isqrt(x: int, r: int) -> bool {
    0 <= r && r * r <= x && x < (r + 1) * (r + 1)
}

/// The integer square root, defined by recursion for use in contracts.
pub open spec fn spec_isqrt(x: int) -> int
    decreases x,
{
    if x <= 0 {
        0
    } else {
        let r = spec_isqrt(x - 1);
        if (r + 1) * (r + 1) <= x {
            r + 1
        } else {
            r
        }
    }
}

/// `spec_isqrt` really is the integer square root.
pub proof fn lemma_spec_isqrt(x: int)
    requires
        x >= 0,
    ensures
        is_isqrt(x, spec_isqrt(x)),
    decreases x,
{
    if x > 0 {
        lemma_spec_isqrt(x - 1);
        let r = spec_isqrt(x - 1);
        if (r + 1) * (r + 1) <= x {
            assert((r + 2) * (r + 2) > x) by (nonlinear_arith)
                requires
                    r >= 0,
                    x - 1 < (r + 1) * (r + 1),
                    (r + 1) * (r + 1) <= x;
        }
    }
}

/// The integer square root is unique.
pub proof fn lemma_isqrt_unique(x: int, r1: int, r2: int)
    requires
        is_isqrt(x, r1),
        is_isqrt(x, r2),
    ensures
        r1 == r2,
{
    assert(r1 == r2) by (nonlinear_arith)
        requires
            0 <= r1 && r1 * r1 <= x && x < (r1 + 1) * (r1 + 1),
            0 <= r2 && r2 * r2 <= x && x < (r2 + 1) * (r2 + 1);
}

/// Integer square root by binary search.
pub fn isqrt64(x: u64) -> (r: u64)
    ensures
        r as int == spec_isqrt(x as int),
        is_isqrt(x as int, r as int),
        r <= x,
{
    let mut lo: u64 = 0;
    let mut hi: u64 = 4294967296;
    proof {
        assert((hi as int) * (hi as int) > x as int) by (nonlinear_arith)
            requires
                hi == 4294967296u64,
                x as int <= 18446744073709551615;
    }
    while lo + 1 < hi
        invariant
            lo < hi <= 4294967296u64,
            (lo as int) * (lo as int) <= x as int,
            (x as int) < (hi as int) * (hi as int),
        decreases hi - lo,
    {
        let mid = lo + (hi - lo) / 2;
        proof {
            assert((mid as int) * (mid as int) <= 4294967296 * 4294967296) by (nonlinear_arith)
                requires
                    0 <= mid as int <= 4294967296;
        }
        if (mid as u128) * (mid as u128) <= x as u128 {
            lo = mid;
        } else {
            hi = mid;
        }
    }
    proof {
        lemma_spec_isqrt(x as int);
        lemma_isqrt_unique(x as int, lo as int, spec_isqrt(x as int));
        assert(lo as int <= x as int) by (nonlinear_arith)
            requires
                0 <= lo as int,
                (lo as int) * (lo as int) <= x as int;
    }
    lo
}

/// The meter value of one sample window: the integer square root of the mean
/// square amplitude, normalized by `SPEECH_FULL_SCALE` and clamped to
/// `LEVEL_SCALE`. Zero for an empty window.
pub open spec fn spec_level(window: Seq<i16>) -> int {
    if window.len() == 0 {
        0
    } else {
        let rms = spec_isqrt(sum_squares(window) / window.len() as int);
        let scaled = rms * (LEVEL_SCALE as int) / (SPEECH_FULL_SCALE as int);
        if scaled > LEVEL_SCALE {
            LEVEL_SCALE as int
        } else {
            scaled
        }
    }
}

/// Every sample square is bounded, so the window sum is too.
proof fn lemma_sum_squares_bounds(s: Seq<i16>)
    ensures
        0 <= sum_squares(s) <= s.len() * 0x40000000,
    decreases s.len(),
{
    if s.len() > 0 {
        lemma_sum_squares_bounds(s.drop_last());
        let v = s.last();
        assert(0 <= v * v <= 0x40000000) by (nonlinear_arith)
            requires
                -0x8000 <= v <= 0x7fff;
        assert((s.len() - 1) * 0x40000000 + 0x40000000 == s.len() * 0x40000000) by (nonlinear_arith);
    }
}

/// Root-mean-square meter value of the window `samples[start..end]`.
pub fn window_level(samples: &Vec<i16>, start: usize, end: usize) -> (r: u16)
    requires
        start < end <= samples@.len(),
    ensures
        r as int == spec_level(samples@.subrange(start as int, end as int)),
{
    let ghost w = samples@.subrange(start as int, end as int);
    let mut sum: u128 = 0;
    let mut i: usize = start;
    while i < end
        invariant
            start <= i <= end <= samples@.len(),
            w == samples@.subrange(start as int, end as int),
            sum == sum_squares(samples@.subrange(start as int, i as int)),
            sum <= (i - start) * 0x40000000,
        decreases end - i,
    {
        let v: i16 = samples[i];
        proof {
            assert(0 <= (v as int) * (v as int) <= 0x40000000) by (nonlinear_arith)
                requires
                    -0x8000 <= v as int <= 0x7fff;
        }
        let sq: u128 = (v as i64 * v as i64) as u128;
        proof {
            let prev = samples@.subrange(start as int, i as int);
            assert(samples@.subrange(start as int, (i + 1) as int).drop_last() =~= prev);
            assert(samples@.subrange(start as int, (i + 1) as int).last() == samples@[i as int]);
            assert((i - start) * 0x40000000 + 0x40000000 == (i + 1 - start) * 0x40000000)
                by (nonlinear_arith);
        }
        sum = sum + sq;
        i = i + 1;
    }
    proof {
        assert(samples@.subrange(start as int, end as int) =~= w);
        lemma_sum_squares_bounds(w);
    }
    let count: u128 = (end - start) as u128;
    let mean: u128 = sum / count;
    proof {
        assert(sum / count <= 0x40000000) by (nonlinear_arith)
            requires
                count > 0,
                0 <= sum <= count * 0x40000000;
        assert(mean == sum_squares(w) / w.len() as int);
    }
    let rms = isqrt64(mean as u64);
    proof {
        assert(mean <= 0x40000000);
        assert(mean as u64 <= 0x40000000u64);
        assert(rms <= 0x40000000u64);
        assert((rms as int) * 1000 < 0x10000000000000000) by (nonlinear_arith)
            requires
                0 <= rms as int <= 0x40000000;
    }
    let scaled: u64 = rms * (LEVEL_SCALE as u64) / (SPEECH_FULL_SCALE as u64);
    if scaled > LEVEL_SCALE as u64 {
        LEVEL_SCALE as u16
    } else {
        scaled as u16
    }
}

/// The value the meter reports at position `j` (of `MAX_LEVELS`, oldest
/// first): zero inside the left padding, otherwise the level of the matching
/// window of the most recent complete windows.
pub open spec fn spec_level_at(samples: Seq<i16>, j: int) -> int {
    let total = samples.len() as int;
    let num_chunks = if total / (SAMPLES_PER_LEVEL as int) < (MAX_LEVELS as int) {
        total / (SAMPLES_PER_LEVEL as int)
    } else {
        MAX_LEVELS as int
    };
    let pad = MAX_LEVELS - num_chunks;
    if j < pad {
        0
    } else {
        let start = total - num_chunks * SAMPLES_PER_LEVEL + (j - pad) * SAMPLES_PER_LEVEL;
        spec_level(samples.subrange(start, start + SAMPLES_PER_LEVEL))
    }
}

/// Audio level meter over the sample buffer: always exactly `MAX_LEVELS`
/// entries, oldest first; the most recent complete windows of
/// `SAMPLES_PER_LEVEL` samples are measured and the result is left-padded
/// with zeros. All zeros whenever not even one complete window exists.
pub fn get_audio_levels(samples: &Vec<i16>) -> (r: Vec<u16>)
    ensures
        r@.len() == MAX_LEVELS,
        forall|j: int| 0 <= j < MAX_LEVELS ==> #[trigger] r@[j] == spec_level_at(samples@, j),
        samples@.len() < SAMPLES_PER_LEVEL ==> forall|j: int|
            0 <= j < MAX_LEVELS ==> #[trigger] r@[j] == 0,
    {
    let total = samples.len();
    let num_chunks_raw = total / SAMPLES_PER_LEVEL;
    let num_chunks = if num_chunks_raw < MAX_LEVELS {
        num_chunks_raw
    } else {
        MAX_LEVELS
    };
    proof {
        assert(num_chunks * SAMPLES_PER_LEVEL <= total) by (nonlinear_arith)
            requires
                num_chunks <= total as int / (SAMPLES_PER_LEVEL as int),
                SAMPLES_PER_LEVEL > 0,
                total >= 0;
    }
    let pad = MAX_LEVELS - num_chunks;
    let start_index = total - num_chunks * SAMPLES_PER_LEVEL;
    let mut r: Vec<u16> = Vec::new();
    let mut j: usize = 0;
    while j < pad
        invariant
            j <= pad,
            r@.len() == j,
            forall|k: int| 0 <= k < j ==> #[trigger] r@[k] == 0,
        decreases pad - j,
    {
        r.push(0);
        j = j + 1;
    }
    let mut c: usize = 0;
    while c < num_chunks
        invariant
            c <= num_chunks,
            num_chunks <= MAX_LEVELS,
            pad == MAX_LEVELS - num_chunks,
            start_index == samples@.len() - num_chunks * SAMPLES_PER_LEVEL,
            num_chunks * SAMPLES_PER_LEVEL <= samples@.len(),
            samples@.len() <= usize::MAX,
            r@.len() == pad + c,
            forall|k: int| 0 <= k < pad ==> #[trigger] r@[k] == 0,
            forall|k: int|
                pad <= k < pad + c ==> #[trigger] r@[k] == spec_level(
                    samples@.subrange(
                        start_index + (k - pad) * SAMPLES_PER_LEVEL,
                        start_index + (k - pad) * SAMPLES_PER_LEVEL + SAMPLES_PER_LEVEL,
                    ),
                ),
        decreases num_chunks - c,
    {
        proof {
            assert(c * SAMPLES_PER_LEVEL + SAMPLES_PER_LEVEL <= num_chunks * SAMPLES_PER_LEVEL)
                by (nonlinear_arith)
                requires
                    c + 1 <= num_chunks,
                    SAMPLES_PER_LEVEL > 0;
            assert(c * SAMPLES_PER_LEVEL >= 0) by (nonlinear_arith)
                requires
                    c >= 0,
                    SAMPLES_PER_LEVEL > 0;
            assert(start_index + c * SAMPLES_PER_LEVEL + SAMPLES_PER_LEVEL <= samples@.len());
        }
        let chunk_start = start_index + c * SAMPLES_PER_LEVEL;
        let level = window_level(samples, chunk_start, chunk_start + SAMPLES_PER_LEVEL);
        r.push(level);
        c = c + 1;
    }
    proof {
        assert forall|j: int| 0 <= j < MAX_LEVELS implies #[trigger] r@[j] == spec_level_at(
            samples@,
            j,
        ) by {
            if samples@.len() < SAMPLES_PER_LEVEL {
                assert(samples@.len() as int / (SAMPLES_PER_LEVEL as int) == 0);
            }
        }
        if samples@.len() < SAMPLES_PER_LEVEL {
            assert(samples@.len() as int / (SAMPLES_PER_LEVEL as int) == 0);
        }
    }
    r
}

impl RecordingState {
    /// Level meter for the current session: an empty result unless actively
    /// recording, otherwise exactly `MAX_LEVELS` windowed levels.
    pub fn get_levels(&self) -> (r: Vec<u16>)
        ensures
            self.status != RecordingStatus::Recording ==> r@.len() == 0,
            self.status == RecordingStatus::Recording ==> {
                &&& r@.len() == MAX_LEVELS
                &&& forall|j: int|
                    0 <= j < MAX_LEVELS ==> #[trigger] r@[j] == spec_level_at(self.samples@, j)
            },
    {
        if self.status != RecordingStatus::Recording {
            return Vec::new();
        }
        get_audio_levels(&self.samples)
    }
}

} // verus!
