//! Points of interest and automatic zoom keyframes.
//!
//! Clicks that follow each other closely are grouped into clusters; each
//! cluster gets a zoom-in keyframe at its first click, and a zoom-out back
//! to the full frame once the pointer has been idle long enough.
//!
//! Input contract: event times are relative to the start of the recording
//! (0 = first frame). The pointer position of an event is not needed to
//! decide *when* to zoom; a zoom-in keyframe names the events of its cluster
//! so that the caller can aim the camera at their centroid.

use vstd::prelude::*;
use crate::project::{Easing, KeyframeSource, ZoomKeyframe};
use crate::text::{decimal, zero_padded, push_char, push_zero_padded, lemma_padded_decimal_injective};

verus! {

/// A click joins the cluster of the previous click when at most this many
/// milliseconds separate them (chained, not anchored to the first click).
/// Tunable: a larger value groups more aggressively.
pub const CLICK_CLUSTER_WINDOW_MS: u64 = 1_200;

/// Idle time after the last click of a cluster before zooming back out to
/// the full frame. Tunable: larger keeps the camera on the last click longer.
pub const INACTIVITY_ZOOM_OUT_MS: u64 = 3_000;

/// Transition length of every generated keyframe (zoom-in and zoom-out).
pub const TRANSITION_DURATION_MS: u64 = 600;

/// Easing of every generated keyframe.
pub const DEFAULT_EASING: Easing = Easing::EaseInOutCubic;

#[derive(Debug, Clone, Copy, PartialEq, Eq, Structural)]
pub enum InputEventKind {
    Move,
    ButtonPress,
    ButtonRelease,
}

/// The timing of an input event: milliseconds since the start of the
/// recording, and what happened.
#[derive(Debug, Clone, Copy, PartialEq, Eq, Structural)]
pub struct TimedEvent {
    pub t_ms: u64,
    pub kind: InputEventKind,
}

/// What a generated keyframe aims at: the clicks of a cluster (indices into
/// the event list, in time order), or the full frame.
#[derive(Debug, Clone)]
pub enum ZoomTarget {
    Cluster(Vec<usize>),
    FullFrame,
}

// ---------------------------------------------------------------------------
// Specification
// ---------------------------------------------------------------------------

pub open spec fn is_click(events: Seq<TimedEvent>, i: int) -> bool {
    0 <= i < events.len() && events[i].kind == InputEventKind::ButtonPress
}

/// Event `i` comes strictly before event `j` when ordering by time, ties
/// broken by position in the event list (a stable sort by time).
pub open spec fn time_before(events: Seq<TimedEvent>, i: int, j: int) -> bool {
    ||| events[i].t_ms < events[j].t_ms
    ||| (events[i].t_ms == events[j].t_ms && i < j)
}

/// `order` lists every click of `events` exactly once, sorted by time, with
/// clicks at the same time kept in input order.
pub open spec fn is_click_order(events: Seq<TimedEvent>, order: Seq<usize>) -> bool {
    &&& forall|k: int| 0 <= k < order.len() ==> is_click(events, #[trigger] order[k] as int)
    &&& forall|i: int| is_click(events, i) ==> #[trigger] order.contains(i as usize)
    &&& forall|k: int, l: int|
        0 <= k < l < order.len() ==> time_before(events, #[trigger] order[k] as int, #[trigger] order[l] as int)
}

/// Times of the clicks, in click order.
pub open spec fn click_times(events: Seq<TimedEvent>, order: Seq<usize>) -> Seq<u64> {
    order.map_values(|i: usize| events[i as int].t_ms)
}

/// Sorted click `k` opens a new cluster: it is the first click, or more than
/// the cluster window separates it from the previous click.
pub open spec fn opens_cluster(ts: Seq<u64>, k: int) -> bool {
    k == 0 || ts[k] - ts[k - 1] > CLICK_CLUSTER_WINDOW_MS
}

/// Positions (into the sorted clicks `ts[0..n]`) at which clusters open.
pub open spec fn cluster_starts(ts: Seq<u64>, n: int) -> Seq<int>
    decreases n,
{
    if n <= 0 {
        Seq::empty()
    } else if opens_cluster(ts, n - 1) {
        cluster_starts(ts, n - 1).push(n - 1)
    } else {
        cluster_starts(ts, n - 1)
    }
}

/// One planned keyframe: its start time and, for a zoom-in, the events of
/// its cluster (`None` for a zoom-out to the full frame).
pub type PlannedZoom = (int, Option<Seq<usize>>);

/// The keyframes contributed by cluster `j`.
pub open spec fn cluster_plan(
    events: Seq<TimedEvent>,
    order: Seq<usize>,
    duration: int,
    j: int,
) -> Seq<PlannedZoom> {
    let ts = click_times(events, order);
    let starts = cluster_starts(ts, ts.len() as int);
    let s = starts[j];
    let e = if j + 1 < starts.len() { starts[j + 1] } else { ts.len() as int };
    let first = ts[s] as int;
    let last = ts[e - 1] as int;
    let window_end = if j + 1 < starts.len() { ts[starts[j + 1]] as int } else { duration };
    let zoom_in: Seq<PlannedZoom> = if first <= duration {
        seq![(first, Some(order.subrange(s, e)))]
    } else {
        Seq::empty()
    };
    let zoom_out: Seq<PlannedZoom> = if window_end - last >= INACTIVITY_ZOOM_OUT_MS && last
        + INACTIVITY_ZOOM_OUT_MS < duration {
        seq![(last + INACTIVITY_ZOOM_OUT_MS, None)]
    } else {
        Seq::empty()
    };
    zoom_in + zoom_out
}

/// The keyframes of the first `j` clusters, in order.
pub open spec fn plan_upto(events: Seq<TimedEvent>, order: Seq<usize>, duration: int, j: int) -> Seq<
    PlannedZoom,
>
    decreases j,
{
    if j <= 0 {
        Seq::empty()
    } else {
        plan_upto(events, order, duration, j - 1) + cluster_plan(events, order, duration, j - 1)
    }
}

/// All keyframes planned for `events` (clicks taken in `order`) over a
/// recording of `duration` milliseconds.
pub open spec fn zoom_plan(events: Seq<TimedEvent>, order: Seq<usize>, duration: int) -> Seq<
    PlannedZoom,
> {
    let ts = click_times(events, order);
    plan_upto(events, order, duration, cluster_starts(ts, ts.len() as int).len() as int)
}

/// Identifier of the `n`-th generated keyframe: `kf_` and `n` in decimal,
/// zero-padded to three digits.
pub open spec fn keyframe_id(n: nat) -> Seq<char> {
    seq!['k', 'f', '_'] + zero_padded(decimal(n), 3)
}

/// Keyframe `kf`, at position `k` of the output, realizes planned keyframe `p`.
pub open spec fn realizes(kf: ZoomKeyframe<ZoomTarget>, k: int, p: PlannedZoom) -> bool {
    &&& kf.id@ == keyframe_id((k + 1) as nat)
    &&& kf.start_ms == p.0
    &&& kf.duration_ms == TRANSITION_DURATION_MS
    &&& kf.easing == DEFAULT_EASING
    &&& kf.source == KeyframeSource::Auto
    &&& match p.1 {
        Some(c) => kf.target_rect matches ZoomTarget::Cluster(v) && v@ == c,
        None => kf.target_rect is FullFrame,
    }
}

pub open spec fn realizes_plan(kfs: Seq<ZoomKeyframe<ZoomTarget>>, plan: Seq<PlannedZoom>) -> bool {
    &&& kfs.len() == plan.len()
    &&& forall|k: int| 0 <= k < kfs.len() ==> realizes(#[trigger] kfs[k], k, plan[k])
}

// ---------------------------------------------------------------------------
// Click order
// ---------------------------------------------------------------------------

/// The clicks of `events`, sorted by time; clicks at the same time keep
/// their input order.
pub fn click_order(events: &Vec<TimedEvent>) -> (order: Vec<usize>)
    ensures
        is_click_order(events@, order@),
{
    let mut order: Vec<usize> = Vec::new();
    let mut i: usize = 0;
    while i < events.len()
        invariant
            i <= events.len(),
            forall|k: int| 0 <= k < order.len() ==> is_click(events@, #[trigger] order@[k] as int),
            forall|k: int| 0 <= k < order.len() ==> #[trigger] order@[k] < i,
            forall|j: int| 0 <= j < i && is_click(events@, j) ==> #[trigger] order@.contains(j as usize),
            forall|k: int, l: int|
                0 <= k < l < order.len() ==> time_before(events@, #[trigger] order@[k] as int, #[trigger] order@[l] as int),
        decreases events.len() - i,
    {
        if events[i].kind == InputEventKind::ButtonPress {
            let t = events[i].t_ms;
            let mut p: usize = order.len();
            while p > 0 && events[order[p - 1]].t_ms > t
                invariant
                    p <= order.len(),
                    i < events.len(),
                    t == events@[i as int].t_ms,
                    forall|k: int| 0 <= k < order.len() ==> #[trigger] order@[k] < events.len(),
                    forall|k: int| p <= k < order.len() ==> events@[#[trigger] order@[k] as int].t_ms > t,
                decreases p,
            {
                p = p - 1;
            }
            let ghost old_order = order@;
            proof {
                assert forall|k: int| 0 <= k < p implies time_before(events@, #[trigger] old_order[k] as int, i as int) by {
                    if k < p - 1 {
                        assert(time_before(events@, old_order[k] as int, old_order[p - 1] as int));
                    }
                }
            }
            order.insert(p, i);
            proof {
                old_order.insert_ensures(p as int, i);
                assert forall|k: int, l: int|
                    0 <= k < l < order.len() implies time_before(events@, #[trigger] order@[k] as int, #[trigger] order@[l] as int) by {
                    if l < p {
                        assert(order@[k] == old_order[k] && order@[l] == old_order[l]);
                    } else if l == p {
                        assert(order@[k] == old_order[k]);
                    } else if k < p {
                        assert(order@[k] == old_order[k] && order@[l] == old_order[l - 1]);
                    } else if k == p {
                        assert(order@[l] == old_order[l - 1]);
                    } else {
                        assert(order@[k] == old_order[k - 1] && order@[l] == old_order[l - 1]);
                    }
                }
                assert forall|j: int| 0 <= j < i + 1 && is_click(events@, j) implies #[trigger] order@.contains(j as usize) by {
                    if j == i {
                        assert(order@[p as int] == i);
                    } else {
                        assert(old_order.contains(j as usize));
                        let k = choose|k: int| 0 <= k < old_order.len() && old_order[k] == j as usize;
                        if k < p {
                            assert(order@[k] == j as usize);
                        } else {
                            assert(order@[k + 1] == j as usize);
                        }
                    }
                }
                assert forall|k: int| 0 <= k < order.len() implies is_click(events@, #[trigger] order@[k] as int) && order@[k] < i + 1 by {
                    if k < p {
                        assert(order@[k] == old_order[k]);
                    } else if k > p {
                        assert(order@[k] == old_order[k - 1]);
                    }
                }
            }
        }
        i = i + 1;
    }
    order
}

// ---------------------------------------------------------------------------
// Clusters
// ---------------------------------------------------------------------------

/// Cluster starts are strictly increasing positions below `n`, and the first
/// click always opens a cluster.
pub proof fn lemma_cluster_starts(ts: Seq<u64>, n: int)
    requires
        0 <= n <= ts.len(),
    ensures
        forall|j: int| 0 <= j < cluster_starts(ts, n).len() ==> 0 <= #[trigger] cluster_starts(ts, n)[j] < n,
        forall|j: int, l: int|
            0 <= j < l < cluster_starts(ts, n).len() ==> #[trigger] cluster_starts(ts, n)[j] < #[trigger] cluster_starts(ts, n)[l],
        n > 0 ==> cluster_starts(ts, n).len() > 0 && cluster_starts(ts, n)[0] == 0,
        cluster_starts(ts, n).len() <= n,
    decreases n,
{
    if n > 0 {
        lemma_cluster_starts(ts, n - 1);
    }
}

/// Clustering is chained: a click opens a new cluster exactly when it is the
/// first click or more than the cluster window separates it from the click
/// just before it; otherwise it joins the cluster of that click.
pub proof fn law_clusters_chain(ts: Seq<u64>, n: int, k: int)
    requires
        0 <= n <= ts.len(),
    ensures
        cluster_starts(ts, n).contains(k) <==> (0 <= k < n && opens_cluster(ts, k)),
    decreases n,
{
    if n > 0 {
        law_clusters_chain(ts, n - 1, k);
        let prev = cluster_starts(ts, n - 1);
        if opens_cluster(ts, n - 1) {
            assert(cluster_starts(ts, n) == prev.push(n - 1));
            if k == n - 1 {
                assert(prev.push(n - 1)[prev.len() as int] == k);
            }
            let pushed = prev.push(n - 1);
            if pushed.contains(k) && k != n - 1 {
                let q = choose|q: int| 0 <= q < pushed.len() && #[trigger] pushed[q] == k;
                assert(prev[q] == k);
            }
            if prev.contains(k) {
                let q = choose|q: int| 0 <= q < prev.len() && #[trigger] prev[q] == k;
                assert(pushed[q] == k);
            }
        }
    }
}

/// Positions (in click order) of the clicks that open a cluster.
fn cluster_start_positions(events: &Vec<TimedEvent>, order: &Vec<usize>) -> (starts: Vec<usize>)
    requires
        forall|k: int| 0 <= k < order.len() ==> #[trigger] order@[k] < events.len(),
    ensures
        starts.len() == cluster_starts(click_times(events@, order@), order.len() as int).len(),
        forall|j: int| 0 <= j < starts.len() ==> #[trigger] starts@[j] as int == cluster_starts(
            click_times(events@, order@),
            order.len() as int,
        )[j],
{
    let ghost ts = click_times(events@, order@);
    let mut starts: Vec<usize> = Vec::new();
    let mut k: usize = 0;
    while k < order.len()
        invariant
            k <= order.len(),
            ts == click_times(events@, order@),
            forall|q: int| 0 <= q < order.len() ==> #[trigger] order@[q] < events.len(),
            starts.len() == cluster_starts(ts, k as int).len(),
            forall|j: int| 0 <= j < starts.len() ==> #[trigger] starts@[j] as int == cluster_starts(ts, k as int)[j],
        decreases order.len() - k,
    {
        let opens = if k == 0 {
            true
        } else {
            events[order[k]].t_ms.saturating_sub(events[order[k - 1]].t_ms) > CLICK_CLUSTER_WINDOW_MS
        };
        proof {
            if k > 0 {
                assert(ts[k as int] == events@[order@[k as int] as int].t_ms);
                assert(ts[k - 1] == events@[order@[k - 1] as int].t_ms);
            }
            assert(opens == opens_cluster(ts, k as int));
        }
        if opens {
            starts.push(k);
        }
        k = k + 1;
    }
    starts
}

fn copy_range(v: &Vec<usize>, s: usize, e: usize) -> (r: Vec<usize>)
    requires
        s <= e <= v.len(),
    ensures
        r@ == v@.subrange(s as int, e as int),
{
    let mut r: Vec<usize> = Vec::new();
    let mut k = s;
    while k < e
        invariant
            s <= k <= e <= v.len(),
            r@ == v@.subrange(s as int, k as int),
        decreases e - k,
    {
        r.push(v[k]);
        assert(r@ =~= v@.subrange(s as int, k + 1));
        k = k + 1;
    }
    r
}

/// The identifier of the `n`-th generated keyframe (`kf_001`, `kf_002`, ...).
pub fn keyframe_id_string(n: u128) -> (id: String)
    ensures
        id@ == keyframe_id(n as nat),
{
    let mut id = String::new();
    push_char(&mut id, 'k');
    push_char(&mut id, 'f');
    push_char(&mut id, '_');
    push_zero_padded(&mut id, n, 3);
    assert(id@ =~= keyframe_id(n as nat));
    id
}

fn planned_keyframe(n: u128, start_ms: u64, target: ZoomTarget) -> (kf: ZoomKeyframe<ZoomTarget>)
    ensures
        kf.id@ == keyframe_id(n as nat),
        kf.start_ms == start_ms,
        kf.duration_ms == TRANSITION_DURATION_MS,
        kf.easing == DEFAULT_EASING,
        kf.source == KeyframeSource::Auto,
        kf.target_rect == target,
{
    ZoomKeyframe {
        id: keyframe_id_string(n),
        start_ms,
        duration_ms: TRANSITION_DURATION_MS,
        target_rect: target,
        easing: DEFAULT_EASING,
        source: KeyframeSource::Auto,
    }
}

/// Generates the automatic zoom keyframes of a whole recording.
///
/// Clicks are taken in time order and grouped into clusters (see
/// [`CLICK_CLUSTER_WINDOW_MS`]). Each cluster gets a zoom-in keyframe at its
/// first click, aimed at the cluster's clicks. When the pointer then stays
/// idle for [`INACTIVITY_ZOOM_OUT_MS`] (until the next cluster, or until the
/// end of the recording), a zoom-out to the full frame follows. No keyframe
/// starts after `recording_duration_ms`; a zoom-in may start exactly at
/// the end, a zoom-out only before it. Without clicks the result is empty
/// and the whole recording stays at the full frame.
pub fn generate_keyframes(events: &Vec<TimedEvent>, recording_duration_ms: u64) -> (kfs: Vec<
    ZoomKeyframe<ZoomTarget>,
>)
    ensures
        exists|order: Seq<usize>|
            is_click_order(events@, order) && realizes_plan(
                kfs@,
                zoom_plan(events@, order, recording_duration_ms as int),
            ),
{
    let order = click_order(events);
    let starts = cluster_start_positions(events, &order);
    let ghost ts = click_times(events@, order@);
    let ghost dur = recording_duration_ms as int;
    proof {
        lemma_cluster_starts(ts, order.len() as int);
    }
    let n = order.len();
    let m = starts.len();
    let mut kfs: Vec<ZoomKeyframe<ZoomTarget>> = Vec::new();
    let mut j: usize = 0;
    while j < m
        invariant
            j <= m,
            n == order.len(),
            m == starts.len(),
            ts == click_times(events@, order@),
            is_click_order(events@, order@),
            dur == recording_duration_ms as int,
            m == cluster_starts(ts, n as int).len(),
            forall|q: int| 0 <= q < m ==> #[trigger] starts@[q] as int == cluster_starts(ts, n as int)[q],
            forall|q: int| 0 <= q < m ==> 0 <= #[trigger] cluster_starts(ts, n as int)[q] < n,
            forall|q: int, l: int|
                0 <= q < l < m ==> #[trigger] cluster_starts(ts, n as int)[q] < #[trigger] cluster_starts(ts, n as int)[l],
            realizes_plan(kfs@, plan_upto(events@, order@, dur, j as int)),
        decreases m - j,
    {
        let s = starts[j];
        let e = if j + 1 < m {
            starts[j + 1]
        } else {
            n
        };
        proof {
            assert(order@[s as int] < events.len()) by {
                assert(is_click(events@, order@[s as int] as int));
            }
            assert(order@[e - 1] < events.len()) by {
                assert(is_click(events@, order@[e - 1] as int));
            }
            if j + 1 < m {
                assert(is_click(events@, order@[e as int] as int));
            }
        }
        let first = events[order[s]].t_ms;
        let last = events[order[e - 1]].t_ms;
        let window_end = if j + 1 < m {
            events[order[e]].t_ms
        } else {
            recording_duration_ms
        };
        let ghost before = kfs@;
        if first <= recording_duration_ms {
            let members = copy_range(&order, s, e);
            let kf = planned_keyframe(kfs.len() as u128 + 1, first, ZoomTarget::Cluster(members));
            kfs.push(kf);
        }
        let idle_gap = window_end.saturating_sub(last);
        if idle_gap >= INACTIVITY_ZOOM_OUT_MS {
            let zoom_out_start = last + INACTIVITY_ZOOM_OUT_MS;
            if zoom_out_start < recording_duration_ms {
                let kf = planned_keyframe(kfs.len() as u128 + 1, zoom_out_start, ZoomTarget::FullFrame);
                kfs.push(kf);
            }
        }
        proof {
            let cp = cluster_plan(events@, order@, dur, j as int);
            assert(ts[s as int] == first);
            assert(ts[e - 1] == last);
            if j + 1 < m {
                assert(ts[e as int] == window_end);
            }
            assert(plan_upto(events@, order@, dur, j + 1) == plan_upto(events@, order@, dur, j as int) + cp);
            assert forall|k: int| 0 <= k < kfs.len() implies realizes(#[trigger] kfs@[k], k, plan_upto(events@, order@, dur, j + 1)[k]) by {
                if k < before.len() {
                    assert(kfs@[k] == before[k]);
                    assert(realizes(before[k], k, plan_upto(events@, order@, dur, j as int)[k]));
                }
            }
        }
        j = j + 1;
    }
    proof {
        assert(realizes_plan(kfs@, zoom_plan(events@, order@, dur)));
    }
    kfs
}

// ---------------------------------------------------------------------------
// Laws
// ---------------------------------------------------------------------------

proof fn lemma_sorted_unique(events: Seq<TimedEvent>, a: Seq<usize>, b: Seq<usize>)
    requires
        forall|k: int, l: int| 0 <= k < l < a.len() ==> time_before(events, #[trigger] a[k] as int, #[trigger] a[l] as int),
        forall|k: int, l: int| 0 <= k < l < b.len() ==> time_before(events, #[trigger] b[k] as int, #[trigger] b[l] as int),
        forall|x: usize| a.contains(x) <==> b.contains(x),
    ensures
        a == b,
    decreases a.len(),
{
    if a.len() == 0 {
        if b.len() > 0 {
            assert(b.contains(b[0]));
        }
        assert(a =~= b);
    } else if b.len() == 0 {
        assert(a.contains(a[0]));
    } else {
        assert(a.contains(a[0]));
        assert(b.contains(b[0]));
        if a[0] != b[0] {
            let p = choose|p: int| 0 <= p < b.len() && b[p] == a[0];
            let q = choose|q: int| 0 <= q < a.len() && a[q] == b[0];
            assert(time_before(events, b[0] as int, b[p] as int));
            assert(time_before(events, a[0] as int, a[q] as int));
        }
        let a1 = a.drop_first();
        let b1 = b.drop_first();
        assert forall|x: usize| a1.contains(x) implies b1.contains(x) by {
            let k = choose|k: int| 0 <= k < a1.len() && a1[k] == x;
            assert(a[k + 1] == x);
            assert(b.contains(x));
            let p = choose|p: int| 0 <= p < b.len() && b[p] == x;
            if p == 0 {
                assert(time_before(events, a[0] as int, a[k + 1] as int));
            }
            assert(b1[p - 1] == x);
        }
        assert forall|x: usize| b1.contains(x) implies a1.contains(x) by {
            let k = choose|k: int| 0 <= k < b1.len() && b1[k] == x;
            assert(b[k + 1] == x);
            assert(a.contains(x));
            let p = choose|p: int| 0 <= p < a.len() && a[p] == x;
            if p == 0 {
                assert(time_before(events, b[0] as int, b[k + 1] as int));
            }
            assert(a1[p - 1] == x);
        }
        assert forall|k: int, l: int| 0 <= k < l < a1.len() implies time_before(events, #[trigger] a1[k] as int, #[trigger] a1[l] as int) by {
            assert(a1[k] == a[k + 1] && a1[l] == a[l + 1]);
        }
        assert forall|k: int, l: int| 0 <= k < l < b1.len() implies time_before(events, #[trigger] b1[k] as int, #[trigger] b1[l] as int) by {
            assert(b1[k] == b[k + 1] && b1[l] == b[l + 1]);
        }
        lemma_sorted_unique(events, a1, b1);
        assert(a =~= seq![a[0]] + a1);
        assert(b =~= seq![b[0]] + b1);
    }
}

/// The click order of a list of events is unique: clicks sorted by time,
/// ties kept in input order, admit exactly one arrangement.
pub proof fn law_click_order_unique(events: Seq<TimedEvent>, o1: Seq<usize>, o2: Seq<usize>)
    requires
        is_click_order(events, o1),
        is_click_order(events, o2),
    ensures
        o1 == o2,
{
    assert forall|x: usize| o1.contains(x) implies o2.contains(x) by {
        let k = choose|k: int| 0 <= k < o1.len() && o1[k] == x;
        let i = o1[k] as int;
        assert(is_click(events, i));
        assert(o2.contains(i as usize));
    }
    assert forall|x: usize| o2.contains(x) implies o1.contains(x) by {
        let k = choose|k: int| 0 <= k < o2.len() && o2[k] == x;
        let i = o2[k] as int;
        assert(is_click(events, i));
        assert(o1.contains(i as usize));
    }
    lemma_sorted_unique(events, o1, o2);
}

/// Distinct positions get distinct keyframe identifiers.
pub proof fn law_keyframe_ids_distinct(a: nat, b: nat)
    requires
        a != b,
    ensures
        keyframe_id(a) != keyframe_id(b),
{
    if keyframe_id(a) == keyframe_id(b) {
        assert(keyframe_id(a).subrange(3, keyframe_id(a).len() as int) =~= zero_padded(decimal(a), 3));
        assert(keyframe_id(b).subrange(3, keyframe_id(b).len() as int) =~= zero_padded(decimal(b), 3));
        lemma_padded_decimal_injective(a, b, 3);
    }
}

/// Without any click there is no keyframe: the whole recording stays at the
/// full frame.
pub proof fn law_no_clicks_no_keyframes(events: Seq<TimedEvent>, order: Seq<usize>, duration: int)
    requires
        is_click_order(events, order),
        forall|i: int| 0 <= i < events.len() ==> events[i].kind != InputEventKind::ButtonPress,
    ensures
        zoom_plan(events, order, duration).len() == 0,
{
    if order.len() > 0 {
        assert(is_click(events, order[0] as int));
    }
    let ts = click_times(events, order);
    assert(cluster_starts(ts, 0).len() == 0);
}

proof fn lemma_click_times_sorted(events: Seq<TimedEvent>, order: Seq<usize>)
    requires
        is_click_order(events, order),
    ensures
        forall|k: int, l: int|
            0 <= k <= l < order.len() ==> #[trigger] click_times(events, order)[k] <= #[trigger] click_times(
                events,
                order,
            )[l],
        click_times(events, order).len() == order.len(),
{
    assert forall|k: int, l: int| 0 <= k <= l < order.len() implies #[trigger] click_times(events, order)[k]
        <= #[trigger] click_times(events, order)[l] by {
        if k < l {
            assert(time_before(events, order[k] as int, order[l] as int));
        }
    }
}

/// Shape of the contribution of one cluster: nothing, a zoom-in, or a
/// zoom-in followed by a zoom-out, all starting no earlier than the
/// cluster's first click and before the end of the recording.
proof fn lemma_cluster_plan_shape(events: Seq<TimedEvent>, order: Seq<usize>, duration: int, j: int)
    requires
        is_click_order(events, order),
        0 <= j < cluster_starts(click_times(events, order), order.len() as int).len(),
    ensures
        ({
            let ts = click_times(events, order);
            let starts = cluster_starts(ts, order.len() as int);
            let cp = cluster_plan(events, order, duration, j);
            &&& cp.len() <= 2
            &&& cp.len() >= 1 ==> cp[0].1 is Some && cp[0].0 == ts[starts[j]]
            &&& cp.len() == 2 ==> cp[1].1 is None && cp[0].0 < cp[1].0
            &&& forall|k: int| 0 <= k < cp.len() ==> ts[starts[j]] <= #[trigger] cp[k].0 <= duration
            &&& forall|k: int| 0 <= k < cp.len() && (#[trigger] cp[k]).1 is None ==> cp[k].0 < duration
            &&& j + 1 < starts.len() ==> forall|k: int|
                0 <= k < cp.len() ==> #[trigger] cp[k].0 <= ts[starts[j + 1]]
        }),
{
    let ts = click_times(events, order);
    let n = order.len() as int;
    lemma_cluster_starts(ts, n);
    lemma_click_times_sorted(events, order);
}

/// No planned keyframe starts after the end of the recording: a zoom-in
/// starts at the latest at the end, a zoom-out strictly before it. The
/// keyframes come sorted by start time, and a zoom-out to the full frame
/// always directly follows a zoom-in.
pub proof fn law_plan_sorted_within_recording(events: Seq<TimedEvent>, order: Seq<usize>, duration: int)
    requires
        is_click_order(events, order),
    ensures
        ({
            let plan = zoom_plan(events, order, duration);
            &&& forall|k: int| 0 <= k < plan.len() ==> #[trigger] plan[k].0 <= duration
            &&& forall|k: int| 0 <= k < plan.len() && (#[trigger] plan[k]).1 is None ==> plan[k].0 < duration
            &&& forall|k: int, l: int| 0 <= k <= l < plan.len() ==> #[trigger] plan[k].0 <= #[trigger] plan[l].0
            &&& forall|k: int| 0 <= k < plan.len() && #[trigger] plan[k].1 is None ==> k > 0 && plan[k - 1].1 is Some
        }),
{
    let ts = click_times(events, order);
    let n = order.len() as int;
    let m = cluster_starts(ts, n).len() as int;
    lemma_cluster_starts(ts, n);
    lemma_click_times_sorted(events, order);
    lemma_plan_upto_sorted(events, order, duration, m);
}

proof fn lemma_plan_upto_sorted(events: Seq<TimedEvent>, order: Seq<usize>, duration: int, j: int)
    requires
        is_click_order(events, order),
        0 <= j <= cluster_starts(click_times(events, order), order.len() as int).len(),
    ensures
        ({
            let ts = click_times(events, order);
            let starts = cluster_starts(ts, order.len() as int);
            let plan = plan_upto(events, order, duration, j);
            &&& forall|k: int| 0 <= k < plan.len() ==> #[trigger] plan[k].0 <= duration
            &&& forall|k: int| 0 <= k < plan.len() && (#[trigger] plan[k]).1 is None ==> plan[k].0 < duration
            &&& forall|k: int, l: int| 0 <= k <= l < plan.len() ==> #[trigger] plan[k].0 <= #[trigger] plan[l].0
            &&& forall|k: int| 0 <= k < plan.len() && #[trigger] plan[k].1 is None ==> k > 0 && plan[k - 1].1 is Some
            &&& j < starts.len() ==> forall|k: int| 0 <= k < plan.len() ==> #[trigger] plan[k].0 <= ts[starts[j]]
        }),
    decreases j,
{
    let ts = click_times(events, order);
    let n = order.len() as int;
    let starts = cluster_starts(ts, n);
    lemma_cluster_starts(ts, n);
    lemma_click_times_sorted(events, order);
    if j > 0 {
        lemma_plan_upto_sorted(events, order, duration, j - 1);
        lemma_cluster_plan_shape(events, order, duration, j - 1);
        let prev = plan_upto(events, order, duration, j - 1);
        let cp = cluster_plan(events, order, duration, j - 1);
        let plan = plan_upto(events, order, duration, j);
        assert(plan == prev + cp);
        assert(ts[starts[j - 1]] <= ts[starts[j - 1]]);
        assert forall|k: int, l: int| 0 <= k <= l < plan.len() implies #[trigger] plan[k].0 <= #[trigger] plan[l].0 by {
            if l >= prev.len() && k < prev.len() {
                assert(plan[k] == prev[k]);
                assert(plan[l] == cp[l - prev.len()]);
            } else if k >= prev.len() {
                assert(plan[k] == cp[k - prev.len()]);
                assert(plan[l] == cp[l - prev.len()]);
            } else {
                assert(plan[k] == prev[k]);
                assert(plan[l] == prev[l]);
            }
        }
        assert forall|k: int| 0 <= k < plan.len() && #[trigger] plan[k].1 is None implies k > 0 && plan[k - 1].1 is Some by {
            if k < prev.len() {
                assert(plan[k] == prev[k]);
                assert(plan[k - 1] == prev[k - 1]);
            } else {
                assert(plan[k] == cp[k - prev.len()]);
                assert(plan[k - 1] == cp[k - 1 - prev.len()]);
            }
        }
        assert forall|k: int| 0 <= k < plan.len() implies #[trigger] plan[k].0 <= duration by {
            if k < prev.len() {
                assert(plan[k] == prev[k]);
            } else {
                assert(plan[k] == cp[k - prev.len()]);
            }
        }
        assert forall|k: int| 0 <= k < plan.len() && (#[trigger] plan[k]).1 is None implies plan[k].0 < duration by {
            if k < prev.len() {
                assert(plan[k] == prev[k]);
            } else {
                assert(plan[k] == cp[k - prev.len()]);
            }
        }
        if j < starts.len() {
            assert(ts[starts[j - 1]] <= ts[starts[j]]);
            assert forall|k: int| 0 <= k < plan.len() implies #[trigger] plan[k].0 <= ts[starts[j]] by {
                if k < prev.len() {
                    assert(plan[k] == prev[k]);
                } else {
                    assert(plan[k] == cp[k - prev.len()]);
                }
            }
        }
    }
}

/// The clicks of `events`, taken in `order`, as events.
pub open spec fn click_events(events: Seq<TimedEvent>, order: Seq<usize>) -> Seq<TimedEvent> {
    order.map_values(|i: usize| events[i as int])
}

/// A planned keyframe with its cluster given by its clicks (as events)
/// rather than by their positions in the event list.
pub open spec fn zoom_as_events(events: Seq<TimedEvent>, p: PlannedZoom) -> (int, Option<Seq<TimedEvent>>) {
    (
        p.0,
        match p.1 {
            Some(c) => Some(c.map_values(|i: usize| events[i as int])),
            None => None,
        },
    )
}

/// A plan with every cluster given by its clicks (see [`zoom_as_events`]).
pub open spec fn plan_as_events(events: Seq<TimedEvent>, plan: Seq<PlannedZoom>) -> Seq<(int, Option<Seq<TimedEvent>>)> {
    plan.map_values(|p: PlannedZoom| zoom_as_events(events, p))
}

/// `events` holds a click equal to `x`.
pub open spec fn has_click(events: Seq<TimedEvent>, x: TimedEvent) -> bool {
    exists|i: int| is_click(events, i) && events[i] == x
}

/// No two clicks of `events` happen at the same time.
pub open spec fn click_times_distinct(events: Seq<TimedEvent>) -> bool {
    forall|i: int, j: int| is_click(events, i) && is_click(events, j) && i != j ==> events[i].t_ms != events[j].t_ms
}

proof fn lemma_plan_upto_by_clicks(
    e1: Seq<TimedEvent>,
    o1: Seq<usize>,
    e2: Seq<TimedEvent>,
    o2: Seq<usize>,
    duration: int,
    j: int,
)
    requires
        is_click_order(e1, o1),
        is_click_order(e2, o2),
        click_events(e1, o1) == click_events(e2, o2),
        0 <= j <= cluster_starts(click_times(e1, o1), o1.len() as int).len(),
    ensures
        plan_as_events(e1, plan_upto(e1, o1, duration, j)) == plan_as_events(e2, plan_upto(e2, o2, duration, j)),
    decreases j,
{
    let ts = click_times(e1, o1);
    let n = o1.len() as int;
    assert(o2.len() == click_events(e2, o2).len());
    assert(o1.len() == click_events(e1, o1).len());
    assert(ts =~= click_times(e2, o2)) by {
        assert forall|k: int| 0 <= k < n implies ts[k] == click_times(e2, o2)[k] by {
            assert(click_events(e1, o1)[k] == click_events(e2, o2)[k]);
            assert(click_events(e1, o1)[k] == e1[o1[k] as int]);
            assert(click_events(e2, o2)[k] == e2[o2[k] as int]);
        }
    }
    if j > 0 {
        lemma_plan_upto_by_clicks(e1, o1, e2, o2, duration, j - 1);
        lemma_cluster_starts(ts, n);
        let starts = cluster_starts(ts, n);
        let s = starts[j - 1];
        let e = if j < starts.len() { starts[j] } else { n };
        let m1 = o1.subrange(s, e).map_values(|i: usize| e1[i as int]);
        let m2 = o2.subrange(s, e).map_values(|i: usize| e2[i as int]);
        assert forall|k: int| 0 <= k < e - s implies #[trigger] m1[k] == m2[k] by {
            assert(click_events(e1, o1)[s + k] == click_events(e2, o2)[s + k]);
            assert(click_events(e1, o1)[s + k] == e1[o1[s + k] as int]);
            assert(click_events(e2, o2)[s + k] == e2[o2[s + k] as int]);
            assert(m1[k] == e1[o1.subrange(s, e)[k] as int]);
            assert(m2[k] == e2[o2.subrange(s, e)[k] as int]);
        }
        assert(m1 =~= m2);
        let c1 = cluster_plan(e1, o1, duration, j - 1);
        let c2 = cluster_plan(e2, o2, duration, j - 1);
        assert(plan_as_events(e1, c1) =~= plan_as_events(e2, c2));
        let p1 = plan_upto(e1, o1, duration, j - 1);
        let p2 = plan_upto(e2, o2, duration, j - 1);
        assert(plan_as_events(e1, p1 + c1) =~= plan_as_events(e1, p1) + plan_as_events(e1, c1));
        assert(plan_as_events(e2, p2 + c2) =~= plan_as_events(e2, p2) + plan_as_events(e2, c2));
    }
}

/// The plan depends on the clicks alone: two event lists whose clicks,
/// taken in click order, are the same events get the same keyframes, each
/// zoom-in aimed at the same clicks.
pub proof fn law_plan_depends_only_on_the_clicks(
    e1: Seq<TimedEvent>,
    o1: Seq<usize>,
    e2: Seq<TimedEvent>,
    o2: Seq<usize>,
    duration: int,
)
    requires
        is_click_order(e1, o1),
        is_click_order(e2, o2),
        click_events(e1, o1) == click_events(e2, o2),
    ensures
        plan_as_events(e1, zoom_plan(e1, o1, duration)) == plan_as_events(e2, zoom_plan(e2, o2, duration)),
{
    let ts = click_times(e1, o1);
    assert(o2.len() == click_events(e2, o2).len());
    assert(o1.len() == click_events(e1, o1).len());
    assert(ts =~= click_times(e2, o2)) by {
        assert forall|k: int| 0 <= k < o1.len() implies ts[k] == click_times(e2, o2)[k] by {
            assert(click_events(e1, o1)[k] == click_events(e2, o2)[k]);
            assert(click_events(e1, o1)[k] == e1[o1[k] as int]);
            assert(click_events(e2, o2)[k] == e2[o2[k] as int]);
        }
    }
    lemma_cluster_starts(ts, o1.len() as int);
    lemma_plan_upto_by_clicks(e1, o1, e2, o2, duration, cluster_starts(ts, o1.len() as int).len() as int);
}

proof fn lemma_click_events_strictly_sorted(events: Seq<TimedEvent>, order: Seq<usize>)
    requires
        events.len() <= usize::MAX,
        is_click_order(events, order),
        click_times_distinct(events),
    ensures
        forall|k: int, l: int| 0 <= k < l < order.len() ==> #[trigger] click_events(events, order)[k].t_ms < #[trigger] click_events(events, order)[l].t_ms,
        forall|x: TimedEvent| click_events(events, order).contains(x) <==> has_click(events, x),
{
    let ce = click_events(events, order);
    assert forall|k: int, l: int| 0 <= k < l < order.len() implies #[trigger] ce[k].t_ms < #[trigger] ce[l].t_ms by {
        assert(time_before(events, order[k] as int, order[l] as int));
        assert(ce[k] == events[order[k] as int] && ce[l] == events[order[l] as int]);
        assert(is_click(events, order[k] as int) && is_click(events, order[l] as int));
    }
    assert forall|x: TimedEvent| ce.contains(x) <==> has_click(events, x) by {
        if ce.contains(x) {
            let k = choose|k: int| 0 <= k < ce.len() && ce[k] == x;
            assert(is_click(events, order[k] as int));
            assert(ce[k] == events[order[k] as int]);
        }
        if has_click(events, x) {
            let i = choose|i: int| is_click(events, i) && events[i] == x;
            assert(order.contains(i as usize));
            let k = choose|k: int| 0 <= k < order.len() && order[k] == i as usize;
            assert(ce[k] == events[order[k] as int]);
            assert(ce[k] == x);
        }
    }
}

proof fn lemma_strictly_sorted_unique(a: Seq<TimedEvent>, b: Seq<TimedEvent>)
    requires
        forall|k: int, l: int| 0 <= k < l < a.len() ==> #[trigger] a[k].t_ms < #[trigger] a[l].t_ms,
        forall|k: int, l: int| 0 <= k < l < b.len() ==> #[trigger] b[k].t_ms < #[trigger] b[l].t_ms,
        forall|x: TimedEvent| a.contains(x) <==> b.contains(x),
    ensures
        a == b,
    decreases a.len(),
{
    if a.len() == 0 {
        if b.len() > 0 {
            assert(b.contains(b[0]));
        }
        assert(a =~= b);
    } else if b.len() == 0 {
        assert(a.contains(a[0]));
    } else {
        assert(a.contains(a[0]));
        assert(b.contains(b[0]));
        let p = choose|p: int| 0 <= p < b.len() && b[p] == a[0];
        let q = choose|q: int| 0 <= q < a.len() && a[q] == b[0];
        if p > 0 {
            assert(b[0].t_ms < b[p].t_ms);
            if q > 0 {
                assert(a[0].t_ms < a[q].t_ms);
            }
        }
        assert(a[0] == b[0]);
        let a1 = a.drop_first();
        let b1 = b.drop_first();
        assert forall|x: TimedEvent| a1.contains(x) implies b1.contains(x) by {
            let k = choose|k: int| 0 <= k < a1.len() && a1[k] == x;
            assert(a[k + 1] == x);
            assert(b.contains(x));
            let r = choose|r: int| 0 <= r < b.len() && b[r] == x;
            if r == 0 {
                assert(a[0].t_ms < a[k + 1].t_ms);
            }
            assert(b1[r - 1] == x);
        }
        assert forall|x: TimedEvent| b1.contains(x) implies a1.contains(x) by {
            let k = choose|k: int| 0 <= k < b1.len() && b1[k] == x;
            assert(b[k + 1] == x);
            assert(a.contains(x));
            let r = choose|r: int| 0 <= r < a.len() && a[r] == x;
            if r == 0 {
                assert(b[0].t_ms < b[k + 1].t_ms);
            }
            assert(a1[r - 1] == x);
        }
        assert forall|k: int, l: int| 0 <= k < l < a1.len() implies #[trigger] a1[k].t_ms < #[trigger] a1[l].t_ms by {
            assert(a1[k] == a[k + 1] && a1[l] == a[l + 1]);
        }
        assert forall|k: int, l: int| 0 <= k < l < b1.len() implies #[trigger] b1[k].t_ms < #[trigger] b1[l].t_ms by {
            assert(b1[k] == b[k + 1] && b1[l] == b[l + 1]);
        }
        lemma_strictly_sorted_unique(a1, b1);
        assert(a =~= seq![a[0]] + a1);
        assert(b =~= seq![b[0]] + b1);
    }
}

/// Moves, releases and the order of the input do not change the plan: two
/// event lists with the same clicks (as events), no two clicks of either
/// at the same time, get the same keyframes, each zoom-in aimed at the same
/// clicks. This covers dropping every non-click event and any permutation
/// of the list.
pub proof fn law_only_the_clicks_matter(
    e1: Seq<TimedEvent>,
    o1: Seq<usize>,
    e2: Seq<TimedEvent>,
    o2: Seq<usize>,
    duration: int,
)
    requires
        e1.len() <= usize::MAX,
        e2.len() <= usize::MAX,
        is_click_order(e1, o1),
        is_click_order(e2, o2),
        click_times_distinct(e1),
        click_times_distinct(e2),
        forall|x: TimedEvent| has_click(e1, x) <==> has_click(e2, x),
    ensures
        click_events(e1, o1) == click_events(e2, o2),
        plan_as_events(e1, zoom_plan(e1, o1, duration)) == plan_as_events(e2, zoom_plan(e2, o2, duration)),
{
    lemma_click_events_strictly_sorted(e1, o1);
    lemma_click_events_strictly_sorted(e2, o2);
    let a = click_events(e1, o1);
    let b = click_events(e2, o2);
    assert forall|k: int, l: int| 0 <= k < l < a.len() implies #[trigger] a[k].t_ms < #[trigger] a[l].t_ms by {
        assert(a.len() == o1.len());
    }
    assert forall|k: int, l: int| 0 <= k < l < b.len() implies #[trigger] b[k].t_ms < #[trigger] b[l].t_ms by {
        assert(b.len() == o2.len());
    }
    assert forall|x: TimedEvent| a.contains(x) <==> b.contains(x) by {
        assert(a.contains(x) <==> has_click(e1, x));
        assert(b.contains(x) <==> has_click(e2, x));
    }
    lemma_strictly_sorted_unique(a, b);
    law_plan_depends_only_on_the_clicks(e1, o1, e2, o2, duration);
}

/// The clicks of `events`, in list order: the list without its moves and
/// releases.
pub open spec fn presses(events: Seq<TimedEvent>) -> Seq<TimedEvent> {
    events.filter(|e: TimedEvent| e.kind == InputEventKind::ButtonPress)
}

proof fn lemma_presses(events: Seq<TimedEvent>)
    requires
        click_times_distinct(events),
    ensures
        forall|k: int| 0 <= k < presses(events).len() ==> (#[trigger] presses(events)[k]).kind == InputEventKind::ButtonPress,
        forall|x: TimedEvent| has_click(presses(events), x) <==> has_click(events, x),
        click_times_distinct(presses(events)),
        presses(events).len() <= events.len(),
    decreases events.len(),
{
    reveal(Seq::filter);
    if events.len() > 0 {
        let n = events.len() as int;
        let dl = events.drop_last();
        let last = events[n - 1];
        assert forall|i: int, j: int| is_click(dl, i) && is_click(dl, j) && i != j implies dl[i].t_ms != dl[j].t_ms by {
            assert(is_click(events, i) && is_click(events, j));
        }
        lemma_presses(dl);
        let pd = presses(dl);
        let pe = presses(events);
        assert(last == events.last());
        if last.kind == InputEventKind::ButtonPress {
            assert(pe == pd.push(last));
        } else {
            assert(pe == pd);
        }
        assert forall|k: int| 0 <= k < pe.len() implies (#[trigger] pe[k]).kind == InputEventKind::ButtonPress by {
            if k < pd.len() {
                assert(pe[k] == pd[k]);
            }
        }
        assert forall|x: TimedEvent| has_click(pe, x) <==> has_click(events, x) by {
            if has_click(pe, x) {
                let k = choose|k: int| is_click(pe, k) && pe[k] == x;
                if k < pd.len() {
                    assert(pe[k] == pd[k]);
                    assert(is_click(pd, k));
                    assert(has_click(dl, x));
                    let i = choose|i: int| is_click(dl, i) && dl[i] == x;
                    assert(is_click(events, i) && events[i] == x);
                } else {
                    assert(is_click(events, n - 1) && events[n - 1] == x);
                }
            }
            if has_click(events, x) {
                let i = choose|i: int| is_click(events, i) && events[i] == x;
                if i < n - 1 {
                    assert(is_click(dl, i) && dl[i] == x);
                    assert(has_click(dl, x));
                    assert(has_click(pd, x));
                    let k = choose|k: int| is_click(pd, k) && pd[k] == x;
                    assert(is_click(pe, k) && pe[k] == x);
                } else {
                    assert(is_click(pe, pe.len() - 1) && pe[pe.len() - 1] == x);
                }
            }
        }
        assert forall|i: int, j: int| is_click(pe, i) && is_click(pe, j) && i != j implies pe[i].t_ms != pe[j].t_ms by {
            if i < pd.len() && j < pd.len() {
                assert(pe[i] == pd[i] && pe[j] == pd[j]);
                assert(is_click(pd, i) && is_click(pd, j));
            } else {
                let (a, b) = if i < pd.len() { (i, j) } else { (j, i) };
                assert(pe[a] == pd[a]);
                assert(is_click(pd, a));
                assert(has_click(pd, pd[a]));
                assert(has_click(dl, pd[a]));
                let k = choose|k: int| is_click(dl, k) && dl[k] == pd[a];
                assert(is_click(events, k) && events[k] == pe[a]);
                assert(is_click(events, n - 1) && events[n - 1] == pe[b]);
            }
        }
    }
}

/// Dropping every move and release leaves the plan as it was: when no two
/// clicks happen at the same time, the clicks alone get the same
/// keyframes, each zoom-in aimed at the same clicks.
pub proof fn law_moves_and_releases_do_not_matter(
    events: Seq<TimedEvent>,
    o1: Seq<usize>,
    o2: Seq<usize>,
    duration: int,
)
    requires
        events.len() <= usize::MAX,
        click_times_distinct(events),
        is_click_order(events, o1),
        is_click_order(presses(events), o2),
    ensures
        plan_as_events(presses(events), zoom_plan(presses(events), o2, duration)) == plan_as_events(
            events,
            zoom_plan(events, o1, duration),
        ),
{
    lemma_presses(events);
    law_only_the_clicks_matter(presses(events), o2, events, o1, duration);
}

/// `perm` holds the events of `events` in another order: `p` and `q` are
/// the two inverse index maps between the lists.
pub open spec fn is_permutation(perm: Seq<TimedEvent>, events: Seq<TimedEvent>, p: Seq<int>, q: Seq<int>) -> bool {
    &&& perm.len() == events.len()
    &&& p.len() == perm.len()
    &&& q.len() == events.len()
    &&& forall|k: int|
        0 <= k < perm.len() ==> 0 <= #[trigger] p[k] < events.len() && q[p[k]] == k && perm[k] == events[p[k]]
    &&& forall|i: int| 0 <= i < events.len() ==> 0 <= #[trigger] q[i] < perm.len() && p[q[i]] == i
}

/// Reordering the input leaves the plan as it was: when no two clicks
/// happen at the same time, any permutation of the events gets the same
/// keyframes, each zoom-in aimed at the same clicks.
pub proof fn law_input_order_does_not_matter(
    events: Seq<TimedEvent>,
    perm: Seq<TimedEvent>,
    p: Seq<int>,
    q: Seq<int>,
    o1: Seq<usize>,
    o2: Seq<usize>,
    duration: int,
)
    requires
        events.len() <= usize::MAX,
        click_times_distinct(events),
        is_permutation(perm, events, p, q),
        is_click_order(events, o1),
        is_click_order(perm, o2),
    ensures
        plan_as_events(perm, zoom_plan(perm, o2, duration)) == plan_as_events(events, zoom_plan(events, o1, duration)),
{
    assert forall|x: TimedEvent| has_click(perm, x) <==> has_click(events, x) by {
        if has_click(perm, x) {
            let k = choose|k: int| is_click(perm, k) && perm[k] == x;
            assert(is_click(events, p[k]) && events[p[k]] == x);
        }
        if has_click(events, x) {
            let i = choose|i: int| is_click(events, i) && events[i] == x;
            assert(perm[q[i]] == events[p[q[i]]]);
            assert(is_click(perm, q[i]) && perm[q[i]] == x);
        }
    }
    assert forall|i: int, j: int| is_click(perm, i) && is_click(perm, j) && i != j implies perm[i].t_ms != perm[j].t_ms by {
        assert(is_click(events, p[i]) && is_click(events, p[j]));
        assert(p[i] != p[j]);
    }
    law_only_the_clicks_matter(perm, o2, events, o1, duration);
}

} // verus!
