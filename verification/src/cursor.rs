//! Sampling the reconstructed cursor path by timestamp.
//!
//! The path is a list of samples in time order. Before the first sample
//! the cursor sits on the first one, after the last sample on the last one,
//! and in between it lies on the segment joining the two samples around the
//! requested instant. Positions are interpolated by the renderer; this
//! module decides which samples and which fraction of the segment apply.

use vstd::prelude::*;

verus! {

#[derive(Debug, Clone, Copy, PartialEq, Eq, Structural)]
pub enum CursorSample {
    /// The cursor sits exactly on sample `i`.
    At(usize),
    /// The cursor lies between sample `index` and sample `index + 1`,
    /// `elapsed_ms` into a segment of `span_ms` (never zero).
    Between { index: usize, elapsed_ms: u64, span_ms: u64 },
}

/// The first segment at or after position `k` whose ends enclose `t`.
pub open spec fn segment_from(times: Seq<u64>, t: int, k: int) -> Option<CursorSample>
    decreases times.len() - k,
{
    if k < 0 || k + 1 >= times.len() {
        None
    } else if times[k] <= t <= times[k + 1] {
        Some(
            CursorSample::Between {
                index: k as usize,
                elapsed_ms: (t - times[k]) as u64,
                span_ms: if times[k + 1] - times[k] >= 1 { (times[k + 1] - times[k]) as u64 } else { 1 },
            },
        )
    } else {
        segment_from(times, t, k + 1)
    }
}

/// Where the cursor is at `t` for samples taken at `times`.
pub open spec fn cursor_sample(times: Seq<u64>, t: int) -> Option<CursorSample> {
    if times.len() == 0 {
        None
    } else if t <= times[0] {
        Some(CursorSample::At(0))
    } else if t >= times.last() {
        Some(CursorSample::At((times.len() - 1) as usize))
    } else {
        segment_from(times, t, 0)
    }
}

/// The cursor sample in effect at `t_ms`, or `None` without any sample.
pub fn cursor_sample_at(times: &Vec<u64>, t_ms: u64) -> (r: Option<CursorSample>)
    ensures
        r == cursor_sample(times@, t_ms as int),
{
    let n = times.len();
    if n == 0 {
        return None;
    }
    if t_ms <= times[0] {
        return Some(CursorSample::At(0));
    }
    if t_ms >= times[n - 1] {
        return Some(CursorSample::At(n - 1));
    }
    let mut k: usize = 0;
    while k + 1 < n
        invariant
            n == times.len(),
            n >= 1,
            k < n,
            segment_from(times@, t_ms as int, k as int) == cursor_sample(times@, t_ms as int),
        decreases n - k,
    {
        let a = times[k];
        let b = times[k + 1];
        if a <= t_ms && t_ms <= b {
            let span = if b - a >= 1 {
                b - a
            } else {
                1
            };
            return Some(CursorSample::Between { index: k, elapsed_ms: t_ms - a, span_ms: span });
        }
        k = k + 1;
    }
    None
}

/// With at least one sample the cursor always has a position (even for
/// samples out of time order), and a position between two samples lies
/// within their segment.
pub proof fn law_samples_always_give_a_position(times: Seq<u64>, t: int)
    requires
        times.len() > 0,
        times.len() <= usize::MAX,
        0 <= t <= u64::MAX,
    ensures
        cursor_sample(times, t) is Some,
        cursor_sample(times, t) matches Some(CursorSample::Between { index, elapsed_ms, span_ms }) ==> {
            &&& index + 1 < times.len()
            &&& times[index as int] + elapsed_ms == t
            &&& t <= times[index + 1]
            &&& elapsed_ms <= span_ms
        },
{
    if times[0] < t < times.last() {
        lemma_segment_found(times, t, 0);
    }
}

proof fn lemma_segment_found(times: Seq<u64>, t: int, k: int)
    requires
        0 <= k,
        k + 1 < times.len(),
        times.len() <= usize::MAX,
        0 <= t <= u64::MAX,
        times[k] <= t < times.last(),
    ensures
        segment_from(times, t, k) is Some,
        segment_from(times, t, k) matches Some(CursorSample::Between { index, elapsed_ms, span_ms }) ==> {
            &&& index + 1 < times.len()
            &&& times[index as int] + elapsed_ms == t
            &&& t <= times[index + 1]
            &&& elapsed_ms <= span_ms
        },
    decreases times.len() - k,
{
    if !(t <= times[k + 1]) {
        assert(k + 2 < times.len()) by {
            if k + 2 >= times.len() {
                assert(times.last() == times[k + 1]);
            }
        }
        lemma_segment_found(times, t, k + 1);
    }
}

proof fn lemma_segment_shape(times: Seq<u64>, t: int, k: int)
    requires
        0 <= k,
        times.len() <= usize::MAX,
        0 <= t <= u64::MAX,
    ensures
        segment_from(times, t, k) matches Some(CursorSample::Between { index, elapsed_ms, span_ms }) ==> {
            &&& k <= index
            &&& index + 1 < times.len()
            &&& times[index as int] <= t <= times[index + 1]
            &&& elapsed_ms == t - times[index as int]
            &&& span_ms == (if times[index + 1] - times[index as int] >= 1 {
                times[index + 1] - times[index as int]
            } else {
                1
            })
            &&& forall|j: int| k <= j < index ==> !(times[j] <= t <= #[trigger] times[j + 1])
        },
        segment_from(times, t, k) matches Some(s) ==> s is Between,
    decreases times.len() - k,
{
    if k + 1 < times.len() && !(times[k] <= t <= times[k + 1]) {
        lemma_segment_shape(times, t, k + 1);
    }
}

/// Between two samples the cursor lies on the first segment whose ends
/// enclose `t`: `elapsed_ms` is the time since the segment's first sample,
/// and `span_ms` the whole length of the segment (one millisecond for two
/// samples at the same time), so `elapsed_ms / span_ms` is the fraction of
/// the segment covered.
pub proof fn law_between_samples_on_the_enclosing_segment(times: Seq<u64>, t: int)
    requires
        times.len() <= usize::MAX,
        0 <= t <= u64::MAX,
    ensures
        cursor_sample(times, t) matches Some(CursorSample::Between { index, elapsed_ms, span_ms }) ==> {
            &&& index + 1 < times.len()
            &&& times[index as int] <= t <= times[index + 1]
            &&& elapsed_ms == t - times[index as int]
            &&& span_ms == (if times[index + 1] - times[index as int] >= 1 {
                times[index + 1] - times[index as int]
            } else {
                1
            })
            &&& forall|j: int| 0 <= j < index ==> !(times[j] <= t <= #[trigger] times[j + 1])
        },
        times.len() > 0 && t <= times[0] ==> cursor_sample(times, t) == Some(CursorSample::At(0)),
        times.len() > 0 && times[0] < t && t >= times.last() ==> cursor_sample(times, t) == Some(
            CursorSample::At((times.len() - 1) as usize),
        ),
        times.len() > 0 && times[0] < t < times.last() ==> cursor_sample(times, t) is Some && cursor_sample(times, t)->0 is Between,
{
    lemma_segment_shape(times, t, 0);
    if times.len() > 0 && times[0] < t < times.last() {
        law_samples_always_give_a_position(times, t);
    }
}

} // verus!
