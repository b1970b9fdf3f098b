//! The non-destructive project model stored in a `.szproj` file: the raw
//! take, the input log, the zoom keyframes and the export settings.
//!
//! Keyframes are generic over the type of their target rectangle: the
//! library plans and edits keyframes without ever looking inside the
//! rectangle, which the rendering side fills with normalized coordinates.

use vstd::prelude::*;
use crate::text::str_eq;

verus! {

/// Version of the project file format. Any incompatible schema change goes
/// through a new version number.
pub const CURRENT_VERSION: u32 = 1;

#[derive(Debug, Clone, Copy, PartialEq, Eq, Structural)]
pub struct Resolution {
    pub width: u32,
    pub height: u32,
}

/// The raw recording a project is built from.
#[derive(Debug, Clone)]
pub struct RawTake {
    pub path: String,
    pub fps: u32,
    pub resolution: Resolution,
    pub duration_ms: u64,
}

/// The raw input log recorded next to the take.
#[derive(Debug, Clone)]
pub struct InputLog {
    pub path: String,
}

#[derive(Debug, Clone, Copy, PartialEq, Eq, Structural)]
pub enum Easing {
    Linear,
    EaseInOutCubic,
    Spring,
}

/// Whether a keyframe was produced by the zoom planner or edited by hand, so
/// that an automatic re-plan never overwrites manual edits.
#[derive(Debug, Clone, Copy, PartialEq, Eq, Structural)]
pub enum KeyframeSource {
    Auto,
    Manual,
}

/// A zoom keyframe: from `start_ms`, during `duration_ms`, the camera moves
/// towards `target_rect` with the given easing.
#[derive(Debug, Clone)]
pub struct ZoomKeyframe<R> {
    pub id: String,
    pub start_ms: u64,
    pub duration_ms: u64,
    pub target_rect: R,
    pub easing: Easing,
    pub source: KeyframeSource,
}

#[derive(Debug, Clone, Copy, PartialEq, Eq, Structural)]
pub enum ExportResolution {
    P1080,
    P1440,
    P4k,
}

#[derive(Debug, Clone, Copy, PartialEq, Eq, Structural)]
pub enum Codec {
    H264,
    H265,
}

#[derive(Debug, Clone)]
pub struct ExportSettings {
    pub resolution: ExportResolution,
    pub fps: u32,
    pub codec: Codec,
    /// `"auto"` lets the exporter pick an available hardware encoder; any
    /// other value is a manual override.
    pub hw_accel: String,
}

impl Default for ExportSettings {
    fn default() -> (s: Self)
        ensures
            s.resolution == ExportResolution::P1080,
            s.fps == 60,
            s.codec == Codec::H264,
            s.hw_accel@ == seq!['a', 'u', 't', 'o'],
    {
        let mut hw_accel = String::new();
        crate::text::push_char(&mut hw_accel, 'a');
        crate::text::push_char(&mut hw_accel, 'u');
        crate::text::push_char(&mut hw_accel, 't');
        crate::text::push_char(&mut hw_accel, 'o');
        assert(hw_accel@ =~= seq!['a', 'u', 't', 'o']);
        ExportSettings { resolution: ExportResolution::P1080, fps: 60, codec: Codec::H264, hw_accel }
    }
}

// ---------------------------------------------------------------------------
// Manual keyframe edits
// ---------------------------------------------------------------------------

/// Position of the first keyframe at or after `k` whose id is `id`, if any.
pub open spec fn first_with_id<R>(kfs: Seq<ZoomKeyframe<R>>, id: Seq<char>, k: int) -> Option<int>
    decreases kfs.len() - k,
{
    if k < 0 || k >= kfs.len() {
        None
    } else if kfs[k].id@ == id {
        Some(k)
    } else {
        first_with_id(kfs, id, k + 1)
    }
}

/// `keyframe` as stored after a manual edit.
pub open spec fn manual<R>(keyframe: ZoomKeyframe<R>) -> ZoomKeyframe<R> {
    ZoomKeyframe { source: KeyframeSource::Manual, ..keyframe }
}

/// The keyframe list after inserting or replacing `keyframe` by hand.
pub open spec fn upserted<R>(keyframe: ZoomKeyframe<R>, kfs: Seq<ZoomKeyframe<R>>) -> Seq<ZoomKeyframe<R>> {
    match first_with_id(kfs, keyframe.id@, 0) {
        Some(i) => kfs.update(i, manual(keyframe)),
        None => kfs.push(manual(keyframe)),
    }
}

/// The keyframe list without any keyframe whose id is `id`, order kept.
pub open spec fn without_id<R>(kfs: Seq<ZoomKeyframe<R>>, id: Seq<char>) -> Seq<ZoomKeyframe<R>>
    decreases kfs.len(),
{
    if kfs.len() == 0 {
        Seq::empty()
    } else {
        let rest = without_id(kfs.drop_first(), id);
        if kfs[0].id@ == id {
            rest
        } else {
            seq![kfs[0]] + rest
        }
    }
}

/// Records a manual edit of a keyframe: the keyframe is marked
/// [`KeyframeSource::Manual`]; it replaces the first keyframe with the same
/// id, or is appended when no keyframe has that id.
pub fn upsert_keyframe<R>(keyframe: ZoomKeyframe<R>, keyframes: Vec<ZoomKeyframe<R>>) -> (r: Vec<
    ZoomKeyframe<R>,
>)
    ensures
        r@ == upserted(keyframe, keyframes@),
{
    let ghost orig = keyframes@;
    let ghost given = keyframe;
    let ghost edited = manual(keyframe);
    let mut list = keyframes;
    let mut stored = keyframe;
    stored.source = KeyframeSource::Manual;
    assert(stored == edited);
    let mut k: usize = 0;
    while k < list.len()
        invariant
            k <= list.len(),
            list@ == orig,
            stored == edited,
            edited == manual(given),
            given == keyframe,
            orig == keyframes@,
            first_with_id(list@, stored.id@, k as int) == first_with_id(list@, stored.id@, 0),
        decreases list.len() - k,
    {
        if str_eq(list[k].id.as_str(), stored.id.as_str()) {
            assert(first_with_id(orig, edited.id@, k as int) == Some(k as int));
            list.set(k, stored);
            return list;
        }
        k = k + 1;
    }
    list.push(stored);
    list
}

/// Deletes every keyframe whose id is `id`, keeping the others in order.
pub fn delete_keyframe<R>(keyframes: Vec<ZoomKeyframe<R>>, id: &str) -> (r: Vec<ZoomKeyframe<R>>)
    ensures
        r@ == without_id(keyframes@, id@),
{
    let ghost orig = keyframes@;
    let mut rest = keyframes;
    let mut kept: Vec<ZoomKeyframe<R>> = Vec::new();
    while rest.len() > 0
        invariant
            kept@ + without_id(rest@, id@) == without_id(orig, id@),
        decreases rest.len(),
    {
        let ghost before = rest@;
        let kf = rest.remove(0);
        assert(rest@ =~= before.drop_first());
        if str_eq(kf.id.as_str(), id) {
        } else {
            let ghost kept_before = kept@;
            kept.push(kf);
            assert(kept@ + without_id(rest@, id@) =~= kept_before + (seq![kf] + without_id(rest@, id@)));
        }
    }
    assert(without_id(rest@, id@) =~= Seq::<ZoomKeyframe<R>>::empty());
    assert(kept@ =~= kept@ + without_id(rest@, id@));
    kept
}

proof fn lemma_without_id_update<R>(kfs: Seq<ZoomKeyframe<R>>, i: int, e: ZoomKeyframe<R>, id: Seq<char>)
    requires
        0 <= i < kfs.len(),
        kfs[i].id@ == id,
        e.id@ == id,
    ensures
        without_id(kfs.update(i, e), id) == without_id(kfs, id),
    decreases kfs.len(),
{
    if i > 0 {
        lemma_without_id_update(kfs.drop_first(), i - 1, e, id);
        assert(kfs.update(i, e).drop_first() =~= kfs.drop_first().update(i - 1, e));
    } else {
        assert(kfs.update(i, e).drop_first() =~= kfs.drop_first());
    }
}

proof fn lemma_without_id_push<R>(kfs: Seq<ZoomKeyframe<R>>, e: ZoomKeyframe<R>, id: Seq<char>)
    requires
        e.id@ == id,
    ensures
        without_id(kfs.push(e), id) == without_id(kfs, id),
    decreases kfs.len(),
{
    if kfs.len() == 0 {
        assert(kfs.push(e).drop_first() =~= Seq::<ZoomKeyframe<R>>::empty());
        assert(without_id(Seq::<ZoomKeyframe<R>>::empty(), id) == Seq::<ZoomKeyframe<R>>::empty());
        assert(kfs.push(e)[0] == e);
    } else {
        lemma_without_id_push(kfs.drop_first(), e, id);
        assert(kfs.push(e).drop_first() =~= kfs.drop_first().push(e));
        assert(kfs.push(e)[0] == kfs[0]);
    }
}

proof fn lemma_first_with_id<R>(kfs: Seq<ZoomKeyframe<R>>, id: Seq<char>, k: int)
    requires
        0 <= k,
    ensures
        first_with_id(kfs, id, k) matches Some(i) ==> k <= i < kfs.len() && kfs[i].id@ == id,
    decreases kfs.len() - k,
{
    if k < kfs.len() && kfs[k].id@ != id {
        lemma_first_with_id(kfs, id, k + 1);
    }
}

/// Deleting an id undoes every trace of a manual edit with that id: the
/// list after editing and then deleting equals the list after deleting
/// alone.
pub proof fn law_delete_undoes_upsert<R>(keyframe: ZoomKeyframe<R>, kfs: Seq<ZoomKeyframe<R>>)
    ensures
        without_id(upserted(keyframe, kfs), keyframe.id@) == without_id(kfs, keyframe.id@),
{
    lemma_first_with_id(kfs, keyframe.id@, 0);
    match first_with_id(kfs, keyframe.id@, 0) {
        Some(i) => lemma_without_id_update(kfs, i, manual(keyframe), keyframe.id@),
        None => lemma_without_id_push(kfs, manual(keyframe), keyframe.id@),
    }
}

/// After a manual edit, the keyframe with the edited id is the edited
/// keyframe, marked manual, and no other keyframe changed.
pub proof fn law_upsert_stores_the_manual_keyframe<R>(keyframe: ZoomKeyframe<R>, kfs: Seq<ZoomKeyframe<R>>)
    ensures
        ({
            let r = upserted(keyframe, kfs);
            &&& first_with_id(r, keyframe.id@, 0) matches Some(i) && r[i] == manual(keyframe)
            &&& r[first_with_id(r, keyframe.id@, 0)->0].source == KeyframeSource::Manual
            &&& r.len() == kfs.len() + if first_with_id(kfs, keyframe.id@, 0) is Some { 0int } else { 1 }
            &&& forall|k: int| 0 <= k < kfs.len() && Some(k) != first_with_id(kfs, keyframe.id@, 0) ==> r[k] == kfs[k]
        }),
{
    lemma_first_with_id(kfs, keyframe.id@, 0);
    let r = upserted(keyframe, kfs);
    match first_with_id(kfs, keyframe.id@, 0) {
        Some(i) => {
            lemma_first_unchanged_prefix(kfs, r, keyframe.id@, 0, i);
        },
        None => {
            lemma_no_id_then_push(kfs, manual(keyframe), keyframe.id@, 0);
        },
    }
}

/// Repeating a manual edit changes nothing: editing a keyframe twice with
/// the same values gives the list of editing it once.
pub proof fn law_upsert_is_idempotent<R>(keyframe: ZoomKeyframe<R>, kfs: Seq<ZoomKeyframe<R>>)
    ensures
        upserted(keyframe, upserted(keyframe, kfs)) == upserted(keyframe, kfs),
{
    law_upsert_stores_the_manual_keyframe(keyframe, kfs);
    let r = upserted(keyframe, kfs);
    lemma_first_with_id(r, keyframe.id@, 0);
    let i = first_with_id(r, keyframe.id@, 0)->0;
    assert(r.update(i, manual(keyframe)) =~= r);
}

/// After deleting an id no keyframe carries it, every other keyframe is
/// kept, and deleting it again changes nothing.
pub proof fn law_delete_removes_the_id<R>(kfs: Seq<ZoomKeyframe<R>>, id: Seq<char>)
    ensures
        forall|k: int| 0 <= k < without_id(kfs, id).len() ==> (#[trigger] without_id(kfs, id)[k]).id@ != id,
        forall|k: int| 0 <= k < kfs.len() && (#[trigger] kfs[k]).id@ != id ==> without_id(kfs, id).contains(kfs[k]),
        without_id(without_id(kfs, id), id) == without_id(kfs, id),
    decreases kfs.len(),
{
    if kfs.len() > 0 {
        let rest = kfs.drop_first();
        law_delete_removes_the_id(rest, id);
        let wr = without_id(rest, id);
        assert forall|k: int| 0 <= k < kfs.len() && (#[trigger] kfs[k]).id@ != id implies without_id(kfs, id).contains(kfs[k]) by {
            if k > 0 {
                assert(rest[k - 1] == kfs[k]);
                let q = choose|q: int| 0 <= q < wr.len() && wr[q] == rest[k - 1];
                if kfs[0].id@ != id {
                    assert(without_id(kfs, id)[q + 1] == kfs[k]);
                }
            } else {
                assert(without_id(kfs, id)[0] == kfs[0]);
            }
        }
        if kfs[0].id@ != id {
            let w = without_id(kfs, id);
            assert(w == seq![kfs[0]] + wr);
            assert(w.drop_first() =~= wr);
            assert(w[0] == kfs[0]);
            assert forall|k: int| 0 <= k < w.len() implies (#[trigger] w[k]).id@ != id by {
                if k > 0 {
                    assert(w[k] == wr[k - 1]);
                }
            }
        }
    }
}

proof fn lemma_first_unchanged_prefix<R>(kfs: Seq<ZoomKeyframe<R>>, r: Seq<ZoomKeyframe<R>>, id: Seq<char>, k: int, i: int)
    requires
        0 <= k <= i < kfs.len(),
        r.len() == kfs.len(),
        first_with_id(kfs, id, k) == Some(i),
        forall|q: int| 0 <= q < kfs.len() && q != i ==> r[q] == kfs[q],
        r[i].id@ == id,
    ensures
        first_with_id(r, id, k) == Some(i),
    decreases i - k,
{
    if k < i {
        lemma_first_unchanged_prefix(kfs, r, id, k + 1, i);
    }
}

proof fn lemma_no_id_then_push<R>(kfs: Seq<ZoomKeyframe<R>>, e: ZoomKeyframe<R>, id: Seq<char>, k: int)
    requires
        0 <= k <= kfs.len(),
        first_with_id(kfs, id, k) is None,
        e.id@ == id,
    ensures
        first_with_id(kfs.push(e), id, k) == Some(kfs.len() as int),
    decreases kfs.len() - k,
{
    if k < kfs.len() {
        assert(kfs.push(e)[k] == kfs[k]);
        lemma_no_id_then_push(kfs, e, id, k + 1);
    }
}

} // verus!
