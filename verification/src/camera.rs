//! Camera timeline: which crop rectangle is in effect at a given instant.
//!
//! Keyframes are expected sorted by start time (see [`keyframe_order`]).
//! Before the first keyframe the camera shows the full frame. During the
//! window `[start_ms, start_ms + duration_ms)` of a keyframe the camera moves
//! from the previous rectangle towards the keyframe's target; afterwards it
//! rests on that target until the next keyframe. Interpolating the
//! rectangle itself (easing curves) is left to the renderer, which receives
//! the elapsed fraction as two integers.

use vstd::prelude::*;
use crate::project::ZoomKeyframe;

verus! {

/// The camera at one instant, in terms of keyframe positions.
#[derive(Debug, Clone, Copy, PartialEq, Eq, Structural)]
pub enum CameraState {
    /// The camera rests on the target of keyframe `i`, or on the full frame
    /// (`None`).
    Hold(Option<usize>),
    /// The camera moves from `from` (the target of a keyframe, or the full
    /// frame for `None`) towards the target of keyframe `to`; `elapsed_ms`
    /// out of `duration_ms` have passed, with `elapsed_ms < duration_ms`.
    Transition { from: Option<usize>, to: usize, elapsed_ms: u64, duration_ms: u64 },
}

/// The camera at time `t`, scanning the keyframes from position `k` on,
/// the camera resting on `current` so far.
pub open spec fn camera_from<R>(kfs: Seq<ZoomKeyframe<R>>, t: int, k: int, current: Option<usize>) -> CameraState
    decreases kfs.len() - k,
{
    if k < 0 || k >= kfs.len() {
        CameraState::Hold(current)
    } else if t < kfs[k].start_ms {
        CameraState::Hold(current)
    } else if t - kfs[k].start_ms >= kfs[k].duration_ms {
        camera_from(kfs, t, k + 1, Some(k as usize))
    } else {
        CameraState::Transition {
            from: current,
            to: k as usize,
            elapsed_ms: (t - kfs[k].start_ms) as u64,
            duration_ms: kfs[k].duration_ms,
        }
    }
}

/// The camera at time `t` for a keyframe list.
pub open spec fn camera_at<R>(kfs: Seq<ZoomKeyframe<R>>, t: int) -> CameraState {
    camera_from(kfs, t, 0, None)
}

/// The camera state at `t_ms`: the keyframes are scanned in order; a
/// keyframe that has not started yet stops the scan, a finished one becomes
/// the resting target, and one in progress yields a transition.
pub fn camera_state_at<R>(keyframes: &Vec<ZoomKeyframe<R>>, t_ms: u64) -> (state: CameraState)
    ensures
        state == camera_at(keyframes@, t_ms as int),
{
    let mut current: Option<usize> = None;
    let mut k: usize = 0;
    while k < keyframes.len()
        invariant
            k <= keyframes.len(),
            camera_from(keyframes@, t_ms as int, k as int, current) == camera_at(keyframes@, t_ms as int),
        decreases keyframes.len() - k,
    {
        let kf = &keyframes[k];
        if t_ms < kf.start_ms {
            return CameraState::Hold(current);
        }
        let elapsed = t_ms - kf.start_ms;
        if elapsed >= kf.duration_ms {
            current = Some(k);
            k = k + 1;
        } else {
            return CameraState::Transition { from: current, to: k, elapsed_ms: elapsed, duration_ms: kf.duration_ms };
        }
    }
    CameraState::Hold(current)
}

/// A keyframe list sorted by start time.
pub open spec fn sorted_by_start<R>(kfs: Seq<ZoomKeyframe<R>>) -> bool {
    forall|k: int, l: int| 0 <= k <= l < kfs.len() ==> #[trigger] kfs[k].start_ms <= #[trigger] kfs[l].start_ms
}

/// Keyframe `i` comes strictly before keyframe `j` by start time, ties
/// broken by position (a stable sort).
pub open spec fn start_before<R>(kfs: Seq<ZoomKeyframe<R>>, i: int, j: int) -> bool {
    ||| kfs[i].start_ms < kfs[j].start_ms
    ||| (kfs[i].start_ms == kfs[j].start_ms && i < j)
}

/// `order` is the stable sort of the keyframe positions by start time.
pub open spec fn is_start_order<R>(kfs: Seq<ZoomKeyframe<R>>, order: Seq<usize>) -> bool {
    &&& order.len() == kfs.len()
    &&& forall|k: int| 0 <= k < order.len() ==> #[trigger] order[k] < kfs.len()
    &&& forall|i: int| 0 <= i < kfs.len() ==> #[trigger] order.contains(i as usize)
    &&& forall|k: int, l: int|
        0 <= k < l < order.len() ==> start_before(kfs, #[trigger] order[k] as int, #[trigger] order[l] as int)
}

/// The positions of the keyframes in playback order: sorted by start time,
/// keyframes starting together kept in list order.
pub fn keyframe_order<R>(keyframes: &Vec<ZoomKeyframe<R>>) -> (order: Vec<usize>)
    ensures
        is_start_order(keyframes@, order@),
{
    let mut order: Vec<usize> = Vec::new();
    let mut i: usize = 0;
    while i < keyframes.len()
        invariant
            i <= keyframes.len(),
            order.len() == i,
            forall|k: int| 0 <= k < order.len() ==> #[trigger] order@[k] < i,
            forall|j: int| 0 <= j < i ==> #[trigger] order@.contains(j as usize),
            forall|k: int, l: int|
                0 <= k < l < order.len() ==> start_before(keyframes@, #[trigger] order@[k] as int, #[trigger] order@[l] as int),
        decreases keyframes.len() - i,
    {
        let t = keyframes[i].start_ms;
        let mut p: usize = order.len();
        while p > 0 && keyframes[order[p - 1]].start_ms > t
            invariant
                p <= order.len(),
                i < keyframes.len(),
                t == keyframes@[i as int].start_ms,
                forall|k: int| 0 <= k < order.len() ==> #[trigger] order@[k] < i,
                forall|k: int| p <= k < order.len() ==> keyframes@[#[trigger] order@[k] as int].start_ms > t,
            decreases p,
        {
            p = p - 1;
        }
        let ghost old_order = order@;
        proof {
            assert forall|k: int| 0 <= k < p implies start_before(keyframes@, #[trigger] old_order[k] as int, i as int) by {
                if k < p - 1 {
                    assert(start_before(keyframes@, old_order[k] as int, old_order[p - 1] as int));
                }
            }
        }
        order.insert(p, i);
        proof {
            old_order.insert_ensures(p as int, i);
            assert forall|k: int, l: int|
                0 <= k < l < order.len() implies start_before(keyframes@, #[trigger] order@[k] as int, #[trigger] order@[l] as int) by {
                if l < p {
                    assert(order@[k] == old_order[k] && order@[l] == old_order[l]);
                } else if l == p {
                    assert(order@[k] == old_order[k]);
                } else if k < p {
                    assert(order@[k] == old_order[k] && order@[l] == old_order[l - 1]);
                } else if k == p {
                    assert(order@[l] == old_order[l - 1]);
                } else {
                    assert(order@[k] == old_order[k - 1] && order@[l] == old_order[l - 1]);
                }
            }
            assert forall|j: int| 0 <= j < i + 1 implies #[trigger] order@.contains(j as usize) by {
                if j == i {
                    assert(order@[p as int] == i);
                } else {
                    assert(old_order.contains(j as usize));
                    let k = choose|k: int| 0 <= k < old_order.len() && old_order[k] == j as usize;
                    if k < p {
                        assert(order@[k] == j as usize);
                    } else {
                        assert(order@[k + 1] == j as usize);
                    }
                }
            }
            assert forall|k: int| 0 <= k < order.len() implies #[trigger] order@[k] < i + 1 by {
                if k < p {
                    assert(order@[k] == old_order[k]);
                } else if k > p {
                    assert(order@[k] == old_order[k - 1]);
                }
            }
        }
        i = i + 1;
    }
    order
}

// ---------------------------------------------------------------------------
// Laws
// ---------------------------------------------------------------------------

/// Before the first keyframe starts (in particular without any keyframe),
/// the camera shows the full frame.
pub proof fn law_full_frame_before_first_keyframe<R>(kfs: Seq<ZoomKeyframe<R>>, t: int)
    requires
        kfs.len() == 0 || t < kfs[0].start_ms,
    ensures
        camera_at(kfs, t) == CameraState::Hold(None),
{
}

proof fn lemma_camera_all_finished<R>(kfs: Seq<ZoomKeyframe<R>>, t: int, k: int, current: Option<usize>)
    requires
        0 <= k <= kfs.len(),
        forall|i: int| 0 <= i < kfs.len() ==> t - (#[trigger] kfs[i]).start_ms >= kfs[i].duration_ms,
    ensures
        camera_from(kfs, t, k, current) == CameraState::Hold(
            if k < kfs.len() { Some((kfs.len() - 1) as usize) } else { current },
        ),
    decreases kfs.len() - k,
{
    if k < kfs.len() {
        assert(t - kfs[k].start_ms >= kfs[k].duration_ms);
        lemma_camera_all_finished(kfs, t, k + 1, Some(k as usize));
    }
}

/// Once every transition is over, the camera rests on the target of the
/// last keyframe.
pub proof fn law_rests_on_last_target<R>(kfs: Seq<ZoomKeyframe<R>>, t: int)
    requires
        kfs.len() > 0,
        forall|i: int| 0 <= i < kfs.len() ==> t >= (#[trigger] kfs[i]).start_ms + kfs[i].duration_ms,
    ensures
        camera_at(kfs, t) == CameraState::Hold(Some((kfs.len() - 1) as usize)),
{
    lemma_camera_all_finished(kfs, t, 0, None);
}

proof fn lemma_camera_ignores_later<R>(
    kfs: Seq<ZoomKeyframe<R>>,
    kf: ZoomKeyframe<R>,
    t: int,
    k: int,
    current: Option<usize>,
)
    requires
        0 <= k <= kfs.len(),
        t < kf.start_ms,
    ensures
        camera_from(kfs.push(kf), t, k, current) == camera_from(kfs, t, k, current),
    decreases kfs.len() - k,
{
    if k < kfs.len() {
        assert(kfs.push(kf)[k] == kfs[k]);
        lemma_camera_ignores_later(kfs, kf, t, k + 1, Some(k as usize));
    } else {
        assert(kfs.push(kf)[k] == kf);
    }
}

/// Adding a keyframe that starts after `t` at the end of the list does not
/// change the camera at `t`.
pub proof fn law_later_keyframe_does_not_affect_earlier_instants<R>(
    kfs: Seq<ZoomKeyframe<R>>,
    kf: ZoomKeyframe<R>,
    t: int,
)
    requires
        t < kf.start_ms,
    ensures
        camera_at(kfs.push(kf), t) == camera_at(kfs, t),
{
    lemma_camera_ignores_later(kfs, kf, t, 0, None);
}

/// A transition always has `elapsed_ms < duration_ms`, it happens exactly
/// during the window of the keyframe it moves towards, and it starts from
/// where the previous keyframe left the camera (the full frame for the
/// first keyframe).
pub proof fn law_transition_within_window<R>(kfs: Seq<ZoomKeyframe<R>>, t: int)
    requires
        0 <= t <= u64::MAX,
        kfs.len() <= usize::MAX,
    ensures
        camera_at(kfs, t) matches CameraState::Transition { to, elapsed_ms, duration_ms, .. } ==> {
            &&& to < kfs.len()
            &&& elapsed_ms < duration_ms
            &&& duration_ms == kfs[to as int].duration_ms
            &&& t == kfs[to as int].start_ms + elapsed_ms
        },
        camera_at(kfs, t) matches CameraState::Transition { from, to, .. } ==> from == (if to == 0 {
            None
        } else {
            Some((to - 1) as usize)
        }),
{
    lemma_transition_within_window(kfs, t, 0, None);
}

proof fn lemma_transition_within_window<R>(kfs: Seq<ZoomKeyframe<R>>, t: int, k: int, current: Option<usize>)
    requires
        0 <= t <= u64::MAX,
        kfs.len() <= usize::MAX,
        0 <= k,
        current == (if k == 0 { None } else { Some((k - 1) as usize) }),
        k <= kfs.len(),
    ensures
        camera_from(kfs, t, k, current) matches CameraState::Transition { to, elapsed_ms, duration_ms, .. } ==> {
            &&& to < kfs.len()
            &&& elapsed_ms < duration_ms
            &&& duration_ms == kfs[to as int].duration_ms
            &&& t == kfs[to as int].start_ms + elapsed_ms
        },
        camera_from(kfs, t, k, current) matches CameraState::Transition { from, to, .. } ==> from == (if to == 0 {
            None
        } else {
            Some((to - 1) as usize)
        }),
    decreases kfs.len() - k,
{
    if k < kfs.len() && t >= kfs[k].start_ms && t - kfs[k].start_ms >= kfs[k].duration_ms {
        lemma_transition_within_window(kfs, t, k + 1, Some(k as usize));
    }
}

proof fn lemma_scan_reaches<R>(kfs: Seq<ZoomKeyframe<R>>, t: int, i: int, k: int)
    requires
        0 <= i <= k < kfs.len(),
        kfs.len() <= usize::MAX,
        forall|j: int| 0 <= j < k ==> t >= (#[trigger] kfs[j]).start_ms + kfs[j].duration_ms,
    ensures
        camera_from(kfs, t, i, if i == 0 { None } else { Some((i - 1) as usize) }) == camera_from(
            kfs,
            t,
            k,
            if k == 0 { None } else { Some((k - 1) as usize) },
        ),
    decreases k - i,
{
    if i < k {
        assert(t >= kfs[i].start_ms + kfs[i].duration_ms);
        lemma_scan_reaches(kfs, t, i + 1, k);
    }
}

/// Inside the window of keyframe `k` (from its start, for its whole
/// duration), once every earlier keyframe has finished, the camera is in
/// transition towards `k`: it left from where keyframe `k - 1` put it (the
/// full frame for the first keyframe), `t - start` milliseconds ago, out of
/// the keyframe's duration.
pub proof fn law_moving_during_the_whole_window<R>(kfs: Seq<ZoomKeyframe<R>>, t: int, k: int)
    requires
        0 <= k < kfs.len(),
        kfs.len() <= usize::MAX,
        forall|j: int| 0 <= j < k ==> t >= (#[trigger] kfs[j]).start_ms + kfs[j].duration_ms,
        kfs[k].start_ms <= t < kfs[k].start_ms + kfs[k].duration_ms,
    ensures
        camera_at(kfs, t) == (CameraState::Transition {
            from: if k == 0 { None } else { Some((k - 1) as usize) },
            to: k as usize,
            elapsed_ms: (t - kfs[k].start_ms) as u64,
            duration_ms: kfs[k].duration_ms,
        }),
{
    lemma_scan_reaches(kfs, t, 0, k);
}

/// Before keyframe `k` starts, once every earlier keyframe has finished,
/// the camera rests where keyframe `k - 1` put it (the full frame before
/// the first keyframe).
pub proof fn law_resting_between_keyframes<R>(kfs: Seq<ZoomKeyframe<R>>, t: int, k: int)
    requires
        0 <= k < kfs.len(),
        kfs.len() <= usize::MAX,
        forall|j: int| 0 <= j < k ==> t >= (#[trigger] kfs[j]).start_ms + kfs[j].duration_ms,
        t < kfs[k].start_ms,
    ensures
        camera_at(kfs, t) == CameraState::Hold(if k == 0 { None } else { Some((k - 1) as usize) }),
{
    lemma_scan_reaches(kfs, t, 0, k);
}

} // verus!
