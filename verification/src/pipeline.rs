use vstd::prelude::*;

use crate::batch::VideoFrameBatch;
use crate::errors::PipelineError;
use crate::frame::{FrameView, VideoFrame};
use crate::frame_update::{UpdateView, VideoFrameUpdate};
use crate::idmap::IdMap;

verus! {

/// What a stage accepts: independent frames, or packed batches.
#[derive(Clone, Copy, Debug, PartialEq, Eq, Structural)]
pub enum VideoPipelineStagePayloadType {
    Frame,
    Batch,
}

/// One payload of a stage: a frame or a batch, each with its pending
/// deferred updates. A batch's pending updates are tagged with the id of
/// the frame inside the batch that each one targets.
#[derive(Debug)]
pub enum PipelinePayload {
    Frame(VideoFrame, Vec<VideoFrameUpdate>),
    Batch(VideoFrameBatch, Vec<(i64, VideoFrameUpdate)>),
}

#[verifier::ext_equal]
pub ghost enum PayloadV {
    Frame(FrameView, Seq<UpdateView>),
    Batch(Map<i64, FrameView>, Seq<(i64, UpdateView)>),
}

/// The view of a batch's tagged pending list.
pub open spec fn tagged_pending(v: Seq<(i64, VideoFrameUpdate)>) -> Seq<(i64, UpdateView)> {
    Seq::new(v.len(), |i: int| (v[i].0, v[i].1@))
}

/// Every update of `s` tagged with the one id `id`.
pub open spec fn tag_seq(id: i64, s: Seq<UpdateView>) -> Seq<(i64, UpdateView)> {
    Seq::new(s.len(), |i: int| (id, s[i]))
}

impl View for PipelinePayload {
    type V = PayloadV;

    open spec fn view(&self) -> PayloadV {
        match self {
            PipelinePayload::Frame(f, ups) => PayloadV::Frame(f@, ups.deep_view()),
            PipelinePayload::Batch(b, ups) => PayloadV::Batch(b@, tagged_pending(ups@)),
        }
    }
}

pub open spec fn payload_wf(p: PipelinePayload) -> bool {
    match p {
        PipelinePayload::Frame(f, ups) => f.wf() && forall|i: int|
            0 <= i < ups@.len() ==> (#[trigger] ups@[i]).wf(),
        PipelinePayload::Batch(b, ups) => b.wf() && forall|i: int|
            0 <= i < ups@.len() ==> (#[trigger] ups@[i]).1.wf(),
    }
}

pub open spec fn payload_kind(p: PipelinePayload) -> VideoPipelineStagePayloadType {
    match p {
        PipelinePayload::Frame(_, _) => VideoPipelineStagePayloadType::Frame,
        PipelinePayload::Batch(_, _) => VideoPipelineStagePayloadType::Batch,
    }
}

/// A frame after one update: attributes filed, objects added under the
/// update's policy, everything else untouched; and whether every object
/// was accepted.
pub open spec fn spec_frame_after_update(fv: FrameView, u: UpdateView) -> (FrameView, bool) {
    let attrs = crate::frame_update::spec_apply_attrs(fv.attributes, u.attributes);
    let objs = crate::frame_update::spec_apply_objects(
        fv.objects,
        u.objects,
        u.object_collision_policy,
    );
    (FrameView { attributes: attrs, objects: objs.0, ..fv }, objs.1)
}

/// A frame after its pending updates, applied in order; the first
/// refused update stops the walk, itself applied as far as it got.
pub open spec fn spec_apply_pending(fv: FrameView, ups: Seq<UpdateView>) -> (FrameView, bool)
    decreases ups.len(),
{
    if ups.len() == 0 {
        (fv, true)
    } else {
        let prev = spec_apply_pending(fv, ups.drop_last());
        if !prev.1 {
            prev
        } else {
            spec_frame_after_update(prev.0, ups.last())
        }
    }
}

/// A batch after its tagged pending updates: each update goes to the
/// frame its tag names; a tag naming no frame of the batch is skipped.
pub open spec fn spec_apply_batch_pending(
    bv: Map<i64, FrameView>,
    ups: Seq<(i64, UpdateView)>,
) -> (Map<i64, FrameView>, bool)
    decreases ups.len(),
{
    if ups.len() == 0 {
        (bv, true)
    } else {
        let prev = spec_apply_batch_pending(bv, ups.drop_last());
        if !prev.1 {
            prev
        } else {
            let fid = ups.last().0;
            if !prev.0.contains_key(fid) {
                prev
            } else {
                let stepped = spec_frame_after_update(prev.0[fid], ups.last().1);
                (prev.0.insert(fid, stepped.0), stepped.1)
            }
        }
    }
}

/// Once a pending walk has refused an update, walking further changes
/// nothing.
proof fn lemma_apply_pending_fail_stable(fv: FrameView, ups: Seq<UpdateView>, j: int)
    requires
        0 < j <= ups.len(),
        !spec_apply_pending(fv, ups.take(j)).1,
    ensures
        spec_apply_pending(fv, ups) == spec_apply_pending(fv, ups.take(j)),
    decreases ups.len() - j,
{
    if j == ups.len() {
        assert(ups.take(j) =~= ups);
    } else {
        assert(ups.take(j + 1).drop_last() =~= ups.take(j));
        lemma_apply_pending_fail_stable(fv, ups, j + 1);
    }
}

/// The batch-walk twin of the lemma above.
proof fn lemma_apply_batch_pending_fail_stable(
    bv: Map<i64, FrameView>,
    ups: Seq<(i64, UpdateView)>,
    j: int,
)
    requires
        0 < j <= ups.len(),
        !spec_apply_batch_pending(bv, ups.take(j)).1,
    ensures
        spec_apply_batch_pending(bv, ups) == spec_apply_batch_pending(bv, ups.take(j)),
    decreases ups.len() - j,
{
    if j == ups.len() {
        assert(ups.take(j) =~= ups);
    } else {
        assert(ups.take(j + 1).drop_last() =~= ups.take(j));
        lemma_apply_batch_pending_fail_stable(bv, ups, j + 1);
    }
}

/// The ids among the first `q` entries of `ids`.
pub open spec fn prefix_set(ids: Seq<i64>, q: int) -> Set<i64> {
    Set::new(|k: i64| exists|p: int| 0 <= p < q && ids[p] == k)
}

/// The frames of a batch, as fresh independent frame payloads with
/// empty pending lists.
pub open spec fn frames_as_payloads(bv: Map<i64, FrameView>) -> Map<i64, PayloadV> {
    Map::new(|k: i64| bv.contains_key(k), |k: i64| PayloadV::Frame(bv[k], Seq::empty()))
}

/// Packing: each id of `ids` that still names a frame payload of `m` is
/// taken out; the frames are collected under their ids, and their pending
/// updates are concatenated in walk order, each tagged with its frame's
/// id. Ids naming nothing (and ids repeated) are silently skipped.
pub open spec fn spec_pack(m: Map<i64, PayloadV>, ids: Seq<i64>) -> (
    Map<i64, PayloadV>,
    Map<i64, FrameView>,
    Seq<(i64, UpdateView)>,
)
    decreases ids.len(),
{
    if ids.len() == 0 {
        (m, Map::empty(), Seq::empty())
    } else {
        let prev = spec_pack(m, ids.drop_last());
        let id = ids.last();
        if !prev.0.contains_key(id) {
            prev
        } else {
            match prev.0[id] {
                PayloadV::Frame(fv, pend) => (
                    prev.0.remove(id),
                    prev.1.insert(id, fv),
                    prev.2 + tag_seq(id, pend),
                ),
                PayloadV::Batch(_, _) => prev,
            }
        }
    }
}

/// Redispatching a batch's tagged pending updates onto independent frame
/// payloads: each update is appended to the pending list of the payload
/// its tag names. An update whose tag names no frame payload stops the
/// walk and fails it.
pub open spec fn spec_redispatch(m: Map<i64, PayloadV>, ups: Seq<(i64, UpdateView)>) -> (
    Map<i64, PayloadV>,
    bool,
)
    decreases ups.len(),
{
    if ups.len() == 0 {
        (m, true)
    } else {
        let prev = spec_redispatch(m, ups.drop_last());
        if !prev.1 {
            prev
        } else {
            let fid = ups.last().0;
            if prev.0.contains_key(fid) && prev.0[fid] is Frame {
                (
                    prev.0.insert(
                        fid,
                        PayloadV::Frame(
                            prev.0[fid]->Frame_0,
                            prev.0[fid]->Frame_1.push(ups.last().1),
                        ),
                    ),
                    true,
                )
            } else {
                (prev.0, false)
            }
        }
    }
}

/// Over a map of frame payloads, redispatching keeps the key set and the
/// payload kind, and succeeds exactly when every tag names a key.
proof fn lemma_redispatch_domain(m: Map<i64, PayloadV>, ups: Seq<(i64, UpdateView)>)
    requires
        forall|k: i64| #[trigger] m.contains_key(k) ==> m[k] is Frame,
    ensures
        forall|k: i64| #[trigger]
            spec_redispatch(m, ups).0.contains_key(k) == m.contains_key(k),
        forall|k: i64| #[trigger]
            spec_redispatch(m, ups).0.contains_key(k) ==> spec_redispatch(m, ups).0[k] is Frame,
        spec_redispatch(m, ups).1 == forall|q: int|
            0 <= q < ups.len() ==> m.contains_key((#[trigger] ups[q]).0),
    decreases ups.len(),
{
    if ups.len() > 0 {
        lemma_redispatch_domain(m, ups.drop_last());
        let prev = spec_redispatch(m, ups.drop_last());
        assert forall|q: int|
            0 <= q < ups.drop_last().len() implies (#[trigger] ups[q]).0 == ups.drop_last()[q].0
            by {}
        if prev.1 {
            if spec_redispatch(m, ups).1 {
                assert forall|q: int|
                    0 <= q < ups.len() implies m.contains_key((#[trigger] ups[q]).0) by {
                    if q < ups.len() - 1 {
                        assert(ups.drop_last()[q] == ups[q]);
                    }
                }
            }
        }
    }
}

/// The updates of `ups` tagged with `k`, in order.
pub open spec fn filter_tag(ups: Seq<(i64, UpdateView)>, k: i64) -> Seq<UpdateView>
    decreases ups.len(),
{
    if ups.len() == 0 {
        Seq::empty()
    } else {
        let rest = filter_tag(ups.drop_last(), k);
        if ups.last().0 == k {
            rest.push(ups.last().1)
        } else {
            rest
        }
    }
}

proof fn lemma_filter_tag_concat(a: Seq<(i64, UpdateView)>, b: Seq<(i64, UpdateView)>, k: i64)
    ensures
        filter_tag(a + b, k) =~= filter_tag(a, k) + filter_tag(b, k),
    decreases b.len(),
{
    if b.len() == 0 {
        assert(a + b =~= a);
        assert(filter_tag(a, k) + filter_tag(b, k) =~= filter_tag(a, k));
    } else {
        lemma_filter_tag_concat(a, b.drop_last(), k);
        assert((a + b).drop_last() =~= a + b.drop_last());
        assert((a + b).last() == b.last());
        if b.last().0 == k {
            assert(filter_tag(a, k) + filter_tag(b, k) =~= (filter_tag(a, k) + filter_tag(
                b.drop_last(),
                k,
            )).push(b.last().1));
        }
    }
}

proof fn lemma_filter_tag_of_tag_seq(id: i64, pend: Seq<UpdateView>, k: i64)
    ensures
        k == id ==> filter_tag(tag_seq(id, pend), k) =~= pend,
        k != id ==> filter_tag(tag_seq(id, pend), k) =~= Seq::<UpdateView>::empty(),
    decreases pend.len(),
{
    if pend.len() > 0 {
        lemma_filter_tag_of_tag_seq(id, pend.drop_last(), k);
        assert(tag_seq(id, pend).drop_last() =~= tag_seq(id, pend.drop_last()));
        assert(tag_seq(id, pend).last() == (id, pend.last()));
    } else {
        assert(tag_seq(id, pend).len() == 0);
    }
}

/// What packing takes and what it builds: the taken payloads are a
/// submap of the source; every packed frame stood in the source under
/// its id with exactly the pending updates the tagged list carries for
/// that id; and every tag names a packed frame.
proof fn lemma_pack_correct(m: Map<i64, PayloadV>, ids: Seq<i64>)
    requires
        forall|k: i64| #[trigger] m.contains_key(k) ==> m.index(k) is Frame,
    ensures
        ({
            let packed = spec_pack(m, ids);
            &&& forall|k: i64| #[trigger]
                packed.0.contains_key(k) ==> m.contains_key(k) && packed.0.index(k) == m.index(k)
            &&& forall|k: i64| #[trigger]
                packed.1.contains_key(k) ==> m.contains_key(k) && !packed.0.contains_key(k)
                    && m.index(k) is Frame && packed.1.index(k) == m.index(k)->Frame_0
                    && filter_tag(packed.2, k) =~= m.index(k)->Frame_1
            &&& forall|q: int|
                0 <= q < packed.2.len() ==> packed.1.contains_key(
                    (#[trigger] packed.2[q]).0,
                )
            &&& forall|k: i64|
                !packed.1.contains_key(k) ==> filter_tag(#[trigger] packed.2, k)
                    =~= Seq::<UpdateView>::empty()
        }),
    decreases ids.len(),
{
    let packed = spec_pack(m, ids);
    if ids.len() == 0 {
        assert forall|k: i64|
            !packed.1.contains_key(k) implies filter_tag(#[trigger] packed.2, k)
            =~= Seq::<UpdateView>::empty() by {}
    } else {
        lemma_pack_correct(m, ids.drop_last());
        let prev = spec_pack(m, ids.drop_last());
        let id = ids.last();
        if !prev.0.contains_key(id) {
            assert(packed == prev);
        } else {
            match prev.0.index(id) {
                PayloadV::Frame(fv, pend) => {
                    assert(m.index(id) == prev.0.index(id));
                    assert forall|k: i64| #[trigger]
                        packed.1.contains_key(k) implies m.contains_key(k)
                        && !packed.0.contains_key(k) && m.index(k) is Frame && packed.1.index(k)
                        == m.index(k)->Frame_0 && filter_tag(packed.2, k) =~= m.index(
                        k)->Frame_1 by {
                        lemma_filter_tag_concat(prev.2, tag_seq(id, pend), k);
                        lemma_filter_tag_of_tag_seq(id, pend, k);
                        if k == id {
                            assert(filter_tag(prev.2, id) =~= Seq::<UpdateView>::empty());
                            assert(filter_tag(packed.2, k) =~= pend);
                        } else {
                            assert(packed.1.index(k) == prev.1.index(k));
                            assert(filter_tag(packed.2, k) =~= filter_tag(prev.2, k));
                        }
                    }
                    assert forall|q: int|
                        0 <= q < packed.2.len() implies packed.1.contains_key(
                        (#[trigger] packed.2[q]).0) by {
                        if q < prev.2.len() {
                            assert(packed.2[q] == prev.2[q]);
                        } else {
                            assert(packed.2[q] == tag_seq(id, pend)[q - prev.2.len()]);
                            assert(packed.2[q].0 == id);
                        }
                    }
                    assert forall|k: i64|
                        !packed.1.contains_key(k) implies filter_tag(#[trigger] packed.2, k)
                        =~= Seq::<UpdateView>::empty() by {
                        lemma_filter_tag_concat(prev.2, tag_seq(id, pend), k);
                        lemma_filter_tag_of_tag_seq(id, pend, k);
                        assert(!prev.1.contains_key(k));
                    }
                },
                PayloadV::Batch(_, _) => {
                    assert(m.index(id) is Frame);
                    assert(false);
                },
            }
        }
    }
}

/// Redispatching appends each tagged update to its frame: afterwards a
/// frame's pending list is what it was, followed by exactly its own
/// tags, in order; and the walk succeeds when every tag names a frame.
proof fn lemma_redispatch_appends(m: Map<i64, PayloadV>, ups: Seq<(i64, UpdateView)>)
    requires
        forall|k: i64| #[trigger] m.contains_key(k) ==> m.index(k) is Frame,
        forall|q: int| 0 <= q < ups.len() ==> m.contains_key((#[trigger] ups[q]).0),
    ensures
        spec_redispatch(m, ups).1,
        forall|k: i64| #[trigger]
            spec_redispatch(m, ups).0.contains_key(k) == m.contains_key(k),
        forall|k: i64| #[trigger]
            m.contains_key(k) ==> spec_redispatch(m, ups).0.index(k) == PayloadV::Frame(
                m.index(k)->Frame_0,
                m.index(k)->Frame_1 + filter_tag(ups, k),
            ),
    decreases ups.len(),
{
    let red = spec_redispatch(m, ups);
    if ups.len() == 0 {
        assert forall|k: i64| #[trigger]
            m.contains_key(k) implies red.0.index(k) == PayloadV::Frame(
            m.index(k)->Frame_0,
            m.index(k)->Frame_1 + filter_tag(ups, k),
        ) by {
            assert(m.index(k)->Frame_1 + filter_tag(ups, k) =~= m.index(k)->Frame_1);
            assert(m.index(k) == PayloadV::Frame(m.index(k)->Frame_0, m.index(k)->Frame_1));
        }
    } else {
        assert forall|q: int|
            0 <= q < ups.drop_last().len() implies m.contains_key(
            (#[trigger] ups.drop_last()[q]).0) by {
            assert(ups.drop_last()[q] == ups[q]);
        }
        lemma_redispatch_appends(m, ups.drop_last());
        let prev = spec_redispatch(m, ups.drop_last());
        let fid = ups.last().0;
        assert(m.contains_key(fid));
        assert(prev.0.contains_key(fid));
        assert(prev.0.index(fid) is Frame);
        assert forall|k: i64| #[trigger]
            m.contains_key(k) implies red.0.index(k) == PayloadV::Frame(
            m.index(k)->Frame_0,
            m.index(k)->Frame_1 + filter_tag(ups, k),
        ) by {
            assert(filter_tag(ups, k).drop_last() == filter_tag(ups.drop_last(), k) || filter_tag(
                ups,
                k,
            ) == filter_tag(ups.drop_last(), k));
            if k == fid {
                assert(red.0.index(k) == PayloadV::Frame(
                    prev.0.index(k)->Frame_0,
                    prev.0.index(k)->Frame_1.push(ups.last().1),
                ));
                assert(filter_tag(ups, k) =~= filter_tag(ups.drop_last(), k).push(ups.last().1));
                assert(m.index(k)->Frame_1 + filter_tag(ups, k) =~= (m.index(k)->Frame_1
                    + filter_tag(ups.drop_last(), k)).push(ups.last().1));
            } else {
                assert(red.0.index(k) == prev.0.index(k));
                assert(filter_tag(ups, k) =~= filter_tag(ups.drop_last(), k));
                assert(m.index(k)->Frame_1 + filter_tag(ups, k) =~= m.index(k)->Frame_1
                    + filter_tag(ups.drop_last(), k));
            }
        }
    }
}

/// Packing frames out of one frame stage and unpacking the batch into
/// another restores every packed frame under its original id, with its
/// pending updates preserved: what the destination then holds under a
/// packed id is exactly the payload the source held there.
pub proof fn lemma_pack_unpack_round_trip(
    src: Map<i64, PayloadV>,
    dst0: Map<i64, PayloadV>,
    ids: Seq<i64>,
)
    requires
        forall|k: i64| #[trigger] src.contains_key(k) ==> src.index(k) is Frame,
        forall|k: i64| #[trigger] dst0.contains_key(k) ==> dst0.index(k) is Frame,
    ensures
        ({
            let packed = spec_pack(src, ids);
            let dst1 = dst0.union_prefer_right(frames_as_payloads(packed.1));
            let red = spec_redispatch(dst1, packed.2);
            &&& red.1
            &&& forall|k: i64| #[trigger]
                packed.1.contains_key(k) ==> red.0.contains_key(k) && red.0.index(k)
                    == src.index(k)
        }),
{
    let packed = spec_pack(src, ids);
    let dst1 = dst0.union_prefer_right(frames_as_payloads(packed.1));
    lemma_pack_correct(src, ids);
    assert forall|k: i64| #[trigger] dst1.contains_key(k) implies dst1.index(k) is Frame by {
        if frames_as_payloads(packed.1).contains_key(k) {
        } else {
            assert(dst0.contains_key(k));
        }
    }
    assert forall|q: int|
        0 <= q < packed.2.len() implies dst1.contains_key((#[trigger] packed.2[q]).0) by {
        assert(packed.1.contains_key(packed.2[q].0));
        assert(frames_as_payloads(packed.1).contains_key(packed.2[q].0));
    }
    lemma_redispatch_appends(dst1, packed.2);
    let red = spec_redispatch(dst1, packed.2);
    assert forall|k: i64| #[trigger]
        packed.1.contains_key(k) implies red.0.contains_key(k) && red.0.index(k) == src.index(
        k,
    ) by {
        assert(frames_as_payloads(packed.1).contains_key(k));
        assert(dst1.contains_key(k));
        assert(dst1.index(k) == PayloadV::Frame(packed.1.index(k), Seq::empty()));
        assert(red.0.index(k) == PayloadV::Frame(
            packed.1.index(k),
            Seq::empty() + filter_tag(packed.2, k),
        ));
        assert(Seq::empty() + filter_tag(packed.2, k) =~= filter_tag(packed.2, k));
        assert(filter_tag(packed.2, k) =~= src.index(k)->Frame_1);
        assert(src.index(k) == PayloadV::Frame(src.index(k)->Frame_0, src.index(k)->Frame_1));
    }
}

/// A named stage's storage.
#[derive(Debug)]
pub struct VideoPipelineStage {
    pub payload: IdMap<PipelinePayload>,
}

/// A stage together with its name and declared type.
#[derive(Debug)]
pub struct StageEntry {
    pub name: String,
    pub stage_type: VideoPipelineStagePayloadType,
    pub stage: VideoPipelineStage,
}

/// The staged container: an ordered collection of named, typed stages
/// and the monotone id counter from which every frame and batch id is
/// drawn.
#[derive(Debug)]
pub struct VideoPipeline {
    pub id_counter: i64,
    pub stages: Vec<StageEntry>,
}

impl VideoPipeline {
    pub open spec fn names_unique(&self) -> bool {
        forall|i: int, j: int|
            0 <= i < j < self.stages@.len() ==> (#[trigger] self.stages@[i]).name@ != (
            #[trigger] self.stages@[j]).name@
    }

    pub open spec fn has_stage(&self, n: Seq<char>) -> bool {
        exists|i: int| 0 <= i < self.stages@.len() && (#[trigger] self.stages@[i]).name@ == n
    }

    pub open spec fn stage_index(&self, n: Seq<char>) -> int {
        choose|i: int| 0 <= i < self.stages@.len() && (#[trigger] self.stages@[i]).name@ == n
    }

    pub open spec fn stage_type_of(&self, n: Seq<char>) -> VideoPipelineStagePayloadType {
        self.stages@[self.stage_index(n)].stage_type
    }

    /// The payloads of stage `n`, as a map from id to payload view.
    pub open spec fn stage_view(&self, n: Seq<char>) -> Map<i64, PayloadV> {
        self.stages@[self.stage_index(n)].stage.payload@.map_values(|p: PipelinePayload| p@)
    }

    pub open spec fn wf(&self) -> bool {
        &&& self.names_unique()
        &&& forall|i: int|
            0 <= i < self.stages@.len() ==> (#[trigger] self.stages@[i]).stage.payload.wf()
        &&& forall|i: int, k: i64|
            0 <= i < self.stages@.len() && #[trigger] self.stages@[i].stage.payload@.contains_key(
                k,
            ) ==> payload_wf(self.stages@[i].stage.payload@[k]) && payload_kind(
                self.stages@[i].stage.payload@[k],
            ) == self.stages@[i].stage_type
    }

    /// Stage `i` answers for its own name.
    pub proof fn lemma_stage_index_is(&self, i: int)
        requires
            self.names_unique(),
            0 <= i < self.stages@.len(),
        ensures
            self.has_stage(self.stages@[i].name@),
            self.stage_index(self.stages@[i].name@) == i,
    {
        let n = self.stages@[i].name@;
        assert(self.has_stage(n));
        let j = self.stage_index(n);
        assert(0 <= j < self.stages@.len() && self.stages@[j].name@ == n);
        if i != j {
            assert(false);
        }
    }

    /// Two pipelines with entrywise-equal names, types and payload maps
    /// agree on every stage observation.
    pub proof fn lemma_same_entries_same_views(a: Self, b: Self)
        requires
            a.names_unique(),
            a.stages@.len() == b.stages@.len(),
            forall|i: int|
                0 <= i < a.stages@.len() ==> (#[trigger] a.stages@[i]).name@ == (
                #[trigger] b.stages@[i]).name@,
        ensures
            b.names_unique(),
            forall|n: Seq<char>| #[trigger] a.has_stage(n) == b.has_stage(n),
            forall|n: Seq<char>| #[trigger]
                a.has_stage(n) ==> a.stage_index(n) == b.stage_index(n),
    {
        assert forall|i: int, j: int|
            0 <= i < j < b.stages@.len() implies (#[trigger] b.stages@[i]).name@ != (
        #[trigger] b.stages@[j]).name@ by {
            assert(a.stages@[i].name@ != a.stages@[j].name@);
        }
        assert forall|n: Seq<char>| #[trigger] a.has_stage(n) == b.has_stage(n) by {
            if a.has_stage(n) {
                let i = a.stage_index(n);
                assert(b.stages@[i].name@ == n);
            }
            if b.has_stage(n) {
                let i = b.stage_index(n);
                assert(a.stages@[i].name@ == n);
            }
        }
        assert forall|n: Seq<char>| #[trigger] a.has_stage(n) implies a.stage_index(n)
            == b.stage_index(n) by {
            let i = a.stage_index(n);
            assert(b.stages@[i].name@ == n);
            assert(b.has_stage(n));
            let j = b.stage_index(n);
            assert(a.stages@[j].name@ == n);
            if i != j {
                assert(false);
            }
        }
    }

    /// Everything observable is as before, except possibly the payloads
    /// of stage `n`.
    pub open spec fn stages_unchanged_except(pre: Self, post: Self, n: Seq<char>) -> bool {
        &&& forall|m: Seq<char>| #[trigger] post.has_stage(m) == pre.has_stage(m)
        &&& forall|m: Seq<char>|
            pre.has_stage(m) ==> #[trigger] post.stage_type_of(m) == pre.stage_type_of(m)
        &&& forall|m: Seq<char>|
            pre.has_stage(m) && m != n ==> #[trigger] post.stage_view(m) == pre.stage_view(m)
    }

    /// Replacing the storage of stage `i`, name and type kept, leaves
    /// every observation of the other stages alone.
    pub proof fn lemma_update_stage_entry(pre: Self, post: Self, i: int)
        requires
            pre.names_unique(),
            0 <= i < pre.stages@.len(),
            post.stages@.len() == pre.stages@.len(),
            forall|j: int|
                0 <= j < pre.stages@.len() && j != i ==> #[trigger] post.stages@[j]
                    == pre.stages@[j],
            post.stages@[i].name@ == pre.stages@[i].name@,
            post.stages@[i].stage_type == pre.stages@[i].stage_type,
        ensures
            post.names_unique(),
            pre.stage_index(pre.stages@[i].name@) == i,
            post.stage_index(pre.stages@[i].name@) == i,
            pre.has_stage(pre.stages@[i].name@),
            forall|n: Seq<char>| #[trigger] post.has_stage(n) == pre.has_stage(n),
            forall|n: Seq<char>|
                pre.has_stage(n) ==> #[trigger] post.stage_index(n) == pre.stage_index(n),
            forall|n: Seq<char>|
                pre.has_stage(n) ==> #[trigger] post.stage_type_of(n) == pre.stage_type_of(n),
            forall|n: Seq<char>|
                pre.has_stage(n) && n != pre.stages@[i].name@ ==> #[trigger] post.stage_view(n)
                    == pre.stage_view(n),
            Self::stages_unchanged_except(pre, post, pre.stages@[i].name@),
    {
        assert forall|a: int| 0 <= a < pre.stages@.len() implies (#[trigger] post.stages@[a]).name@
            == pre.stages@[a].name@ by {}
        Self::lemma_same_entries_same_views(pre, post);
        pre.lemma_stage_index_is(i);
        post.lemma_stage_index_is(i);
        assert forall|n: Seq<char>|
            pre.has_stage(n) implies #[trigger] post.stage_type_of(n) == pre.stage_type_of(
            n,
        ) by {
            let j = pre.stage_index(n);
            pre.lemma_stage_index_is(j);
            if j != i {
                assert(post.stages@[j] == pre.stages@[j]);
            }
        }
        assert forall|n: Seq<char>|
            pre.has_stage(n) && n != pre.stages@[i].name@ implies #[trigger] post.stage_view(n)
            == pre.stage_view(n) by {
            let j = pre.stage_index(n);
            pre.lemma_stage_index_is(j);
            assert(j != i);
            assert(post.stages@[j] == pre.stages@[j]);
            assert(post.stage_view(n) =~= pre.stage_view(n));
        }
    }

    /// The declared type of stage `n`, where the stage exists.
    pub open spec fn stage_type_opt(&self, n: Seq<char>) -> Option<
        VideoPipelineStagePayloadType,
    > {
        if self.has_stage(n) {
            Some(self.stage_type_of(n))
        } else {
            None
        }
    }

    /// Everything observable is as before, except possibly the payloads
    /// of the two named stages.
    pub open spec fn stages_unchanged_except2(
        pre: Self,
        post: Self,
        n1: Seq<char>,
        n2: Seq<char>,
    ) -> bool {
        &&& forall|m: Seq<char>| #[trigger] post.has_stage(m) == pre.has_stage(m)
        &&& forall|m: Seq<char>|
            pre.has_stage(m) ==> #[trigger] post.stage_type_of(m) == pre.stage_type_of(m)
        &&& forall|m: Seq<char>|
            pre.has_stage(m) && m != n1 && m != n2 ==> #[trigger] post.stage_view(m)
                == pre.stage_view(m)
    }

    fn find_stage(&self, name: &str) -> (r: Option<usize>)
        ensures
            match r {
                Some(i) => i < self.stages@.len() && self.stages@[i as int].name@ == name@
                    && self.has_stage(name@),
                None => !self.has_stage(name@),
            },
    {
        let n = self.stages.len();
        let mut i: usize = 0;
        while i < n
            invariant
                n == self.stages@.len(),
                i <= n,
                forall|j: int| 0 <= j < i ==> (#[trigger] self.stages@[j]).name@ != name@,
            decreases n - i,
        {
            if crate::strutil::str_eq(self.stages[i].name.as_str(), name) {
                return Some(i);
            }
            i += 1;
        }
        None
    }

    pub fn new() -> (r: VideoPipeline)
        ensures
            r.wf(),
            r.id_counter == 0,
            r.stages@.len() == 0,
            forall|n: Seq<char>| !(#[trigger] r.has_stage(n)),
    {
        VideoPipeline { id_counter: 0, stages: Vec::new() }
    }

    /// How many stages the pipeline holds.
    pub fn stage_count(&self) -> (r: usize)
        ensures
            r == self.stages@.len(),
    {
        self.stages.len()
    }

    /// Declares a stage. Fails when the name is taken.
    pub fn add_stage(&mut self, name: &str, stage_type: VideoPipelineStagePayloadType) -> (r:
        Result<(), PipelineError>)
        requires
            old(self).wf(),
        ensures
            final(self).wf(),
            final(self).id_counter == old(self).id_counter,
            match r {
                Ok(_) => {
                    &&& !old(self).has_stage(name@)
                    &&& final(self).has_stage(name@)
                    &&& final(self).stage_type_of(name@) == stage_type
                    &&& final(self).stage_view(name@) =~= Map::<i64, PayloadV>::empty()
                    &&& final(self).stages@.len() == old(self).stages@.len() + 1
                    &&& forall|n: Seq<char>|
                        n != name@ ==> #[trigger] final(self).has_stage(n)
                            == old(self).has_stage(n)
                    &&& forall|n: Seq<char>|
                        n != name@ && old(self).has_stage(n)
                            ==> #[trigger] final(self).stage_type_of(n)
                            == old(self).stage_type_of(n)
                            && final(self).stage_view(n) == old(self).stage_view(n)
                },
                Err(e) => {
                    &&& e == PipelineError::DuplicateStage
                    &&& old(self).has_stage(name@)
                    &&& *final(self) == *old(self)
                },
            },
    {
        match self.find_stage(name) {
            Some(_) => Err(PipelineError::DuplicateStage),
            None => {
                let entry = StageEntry {
                    name: name.to_owned(),
                    stage_type,
                    stage: VideoPipelineStage { payload: IdMap::new() },
                };
                self.stages.push(entry);
                proof {
                    let fself = *final(self);
                    let oldn = old(self).stages@.len() as int;
                    assert forall|i: int, j: int|
                        0 <= i < j < fself.stages@.len() implies (#[trigger] fself.stages@[i]).name@
                        != (#[trigger] fself.stages@[j]).name@ by {
                        if j < oldn {
                            assert(old(self).stages@[i].name@ != old(self).stages@[j].name@);
                        } else {
                            assert(fself.stages@[j].name@ == name@);
                            assert(fself.stages@[i] == old(self).stages@[i]);
                            assert(old(self).has_stage(fself.stages@[i].name@));
                        }
                    }
                    fself.lemma_stage_index_is(oldn);
                    assert(fself.stage_view(name@) =~= Map::<i64, PayloadV>::empty());
                    assert forall|n: Seq<char>|
                        n != name@ implies #[trigger] fself.has_stage(n) == old(self).has_stage(
                        n,
                    ) by {
                        if fself.has_stage(n) {
                            let i = fself.stage_index(n);
                            assert(i != oldn);
                            assert(old(self).stages@[i].name@ == n);
                        }
                        if old(self).has_stage(n) {
                            let i = old(self).stage_index(n);
                            assert(fself.stages@[i].name@ == n);
                        }
                    }
                    assert forall|n: Seq<char>|
                        n != name@ && old(self).has_stage(n) implies #[trigger] fself.stage_type_of(
                        n,
                    ) == old(self).stage_type_of(n) && fself.stage_view(n) == old(self).stage_view(
                        n,
                    ) by {
                        let i = old(self).stage_index(n);
                        old(self).lemma_stage_index_is(i);
                        fself.lemma_stage_index_is(i);
                        assert(fself.stages@[i] == old(self).stages@[i]);
                        assert(fself.stage_view(n) =~= old(self).stage_view(n));
                    }
                }
                Ok(())
            },
        }
    }

    pub fn get_stage(&self, name: &str) -> (r: Option<&VideoPipelineStage>)
        requires
            self.wf(),
        ensures
            match r {
                Some(s) => self.has_stage(name@) && *s == self.stages@[self.stage_index(
                    name@,
                )].stage,
                None => !self.has_stage(name@),
            },
    {
        match self.find_stage(name) {
            Some(i) => {
                proof {
                    self.lemma_stage_index_is(i as int);
                }
                Some(&self.stages[i].stage)
            },
            None => None,
        }
    }

    pub fn get_stage_mut(&mut self, name: &str) -> (r: Option<&mut VideoPipelineStage>)
        requires
            old(self).wf(),
        ensures
            match r {
                Some(s) => {
                    &&& old(self).has_stage(name@)
                    &&& *s == old(self).stages@[old(self).stage_index(name@)].stage
                    &&& final(self).stages@ == old(self).stages@.update(
                        old(self).stage_index(name@),
                        StageEntry {
                            name: old(self).stages@[old(self).stage_index(name@)].name,
                            stage_type: old(self).stages@[old(self).stage_index(
                                name@,
                            )].stage_type,
                            stage: *final(s),
                        },
                    )
                    &&& final(self).id_counter == old(self).id_counter
                },
                None => {
                    &&& !old(self).has_stage(name@)
                    &&& *final(self) == *old(self)
                },
            },
    {
        let idx = self.find_stage(name);
        match idx {
            Some(i) => {
                proof {
                    self.lemma_stage_index_is(i as int);
                }
                let entry = vstd::std_specs::vec::vec_index_mut(&mut self.stages, i);
                Some(&mut entry.stage)
            },
            None => None,
        }
    }

    pub fn get_stage_type(&self, name: &str) -> (r: Option<&VideoPipelineStagePayloadType>)
        requires
            self.wf(),
        ensures
            match r {
                Some(t) => self.has_stage(name@) && *t == self.stage_type_of(name@),
                None => !self.has_stage(name@),
            },
    {
        match self.find_stage(name) {
            Some(i) => {
                proof {
                    self.lemma_stage_index_is(i as int);
                }
                Some(&self.stages[i].stage_type)
            },
            None => None,
        }
    }

    /// Allocates the next id and inserts `frame` into a frame stage,
    /// with an empty pending list.
    pub fn add_frame(&mut self, stage: &str, frame: VideoFrame) -> (r: Result<i64, PipelineError>)
        requires
            old(self).wf(),
            old(self).id_counter < i64::MAX,
            frame.wf(),
        ensures
            final(self).wf(),
            match r {
                Ok(id) => {
                    &&& old(self).has_stage(stage@)
                    &&& old(self).stage_type_of(stage@) == VideoPipelineStagePayloadType::Frame
                    &&& id == old(self).id_counter + 1
                    &&& final(self).id_counter == id
                    &&& final(self).stage_view(stage@) =~= old(self).stage_view(stage@).insert(
                        id,
                        PayloadV::Frame(frame@, Seq::empty()),
                    )
                    &&& Self::stages_unchanged_except(*old(self), *final(self), stage@)
                },
                Err(e) => {
                    &&& *final(self) == *old(self)
                    &&& (e == PipelineError::StageTypeMismatch <==> old(self).has_stage(stage@)
                        && old(self).stage_type_of(stage@)
                        == VideoPipelineStagePayloadType::Batch)
                    &&& (e == PipelineError::StageNotFound <==> !old(self).has_stage(stage@))
                    &&& (e == PipelineError::StageTypeMismatch || e
                        == PipelineError::StageNotFound)
                },
            },
    {
        let idx = self.find_stage(stage);
        match idx {
            None => Err(PipelineError::StageNotFound),
            Some(i) => {
                proof {
                    self.lemma_stage_index_is(i as int);
                }
                let accepts = match self.stages[i].stage_type {
                    VideoPipelineStagePayloadType::Frame => true,
                    VideoPipelineStagePayloadType::Batch => false,
                };
                if !accepts {
                    return Err(PipelineError::StageTypeMismatch);
                }
                let id = self.id_counter + 1;
                let ghost pre = *self;
                let ghost fv = frame@;
                let payload = PipelinePayload::Frame(frame, Vec::new());
                let ghost pval = payload;
                let entry = vstd::std_specs::vec::vec_index_mut(&mut self.stages, i);
                entry.stage.payload.insert(id, payload);
                self.id_counter = id;
                proof {
                    Self::lemma_update_stage_entry(pre, *self, i as int);
                    let pm = self.stages@[i as int].stage.payload;
                    let opm = pre.stages@[i as int].stage.payload;
                    assert(pm@ == opm@.insert(id, pval));
                    assert(pval@ == PayloadV::Frame(fv, Seq::empty())) by {
                        assert(pval@->Frame_1 =~= Seq::<UpdateView>::empty());
                    }
                    assert(self.stage_view(stage@) =~= pre.stage_view(stage@).insert(
                        id,
                        PayloadV::Frame(fv, Seq::empty()),
                    ));
                    assert forall|i2: int, k: i64|
                        0 <= i2 < self.stages@.len()
                            && #[trigger] self.stages@[i2].stage.payload@.contains_key(
                        k) implies payload_wf(self.stages@[i2].stage.payload@[k]) && payload_kind(
                        self.stages@[i2].stage.payload@[k]) == self.stages@[i2].stage_type by {
                        if i2 == i as int {
                            if k != id {
                                assert(opm@.contains_key(k));
                            }
                        } else {
                            assert(self.stages@[i2] == pre.stages@[i2]);
                        }
                    }
                }
                Ok(id)
            },
        }
    }

    /// Allocates the next id and inserts `batch` into a batch stage,
    /// with an empty pending list.
    pub fn add_batch(&mut self, stage: &str, batch: VideoFrameBatch) -> (r: Result<
        i64,
        PipelineError,
    >)
        requires
            old(self).wf(),
            old(self).id_counter < i64::MAX,
            batch.wf(),
        ensures
            final(self).wf(),
            match r {
                Ok(id) => {
                    &&& old(self).has_stage(stage@)
                    &&& old(self).stage_type_of(stage@) == VideoPipelineStagePayloadType::Batch
                    &&& id == old(self).id_counter + 1
                    &&& final(self).id_counter == id
                    &&& final(self).stage_view(stage@) =~= old(self).stage_view(stage@).insert(
                        id,
                        PayloadV::Batch(batch@, Seq::empty()),
                    )
                    &&& Self::stages_unchanged_except(*old(self), *final(self), stage@)
                },
                Err(e) => {
                    &&& *final(self) == *old(self)
                    &&& (e == PipelineError::StageTypeMismatch <==> old(self).has_stage(stage@)
                        && old(self).stage_type_of(stage@)
                        == VideoPipelineStagePayloadType::Frame)
                    &&& (e == PipelineError::StageNotFound <==> !old(self).has_stage(stage@))
                    &&& (e == PipelineError::StageTypeMismatch || e
                        == PipelineError::StageNotFound)
                },
            },
    {
        let idx = self.find_stage(stage);
        match idx {
            None => Err(PipelineError::StageNotFound),
            Some(i) => {
                proof {
                    self.lemma_stage_index_is(i as int);
                }
                let accepts = match self.stages[i].stage_type {
                    VideoPipelineStagePayloadType::Batch => true,
                    VideoPipelineStagePayloadType::Frame => false,
                };
                if !accepts {
                    return Err(PipelineError::StageTypeMismatch);
                }
                let id = self.id_counter + 1;
                let ghost pre = *self;
                let ghost bv = batch@;
                let payload = PipelinePayload::Batch(batch, Vec::new());
                let ghost pval = payload;
                let entry = vstd::std_specs::vec::vec_index_mut(&mut self.stages, i);
                entry.stage.payload.insert(id, payload);
                self.id_counter = id;
                proof {
                    Self::lemma_update_stage_entry(pre, *self, i as int);
                    let pm = self.stages@[i as int].stage.payload;
                    let opm = pre.stages@[i as int].stage.payload;
                    assert(pm@ == opm@.insert(id, pval));
                    assert(pval@ == PayloadV::Batch(bv, Seq::empty())) by {
                        assert(pval@->Batch_1 =~= Seq::<(i64, UpdateView)>::empty());
                    }
                    assert(self.stage_view(stage@) =~= pre.stage_view(stage@).insert(
                        id,
                        PayloadV::Batch(bv, Seq::empty()),
                    ));
                    assert forall|i2: int, k: i64|
                        0 <= i2 < self.stages@.len()
                            && #[trigger] self.stages@[i2].stage.payload@.contains_key(
                        k) implies payload_wf(self.stages@[i2].stage.payload@[k]) && payload_kind(
                        self.stages@[i2].stage.payload@[k]) == self.stages@[i2].stage_type by {
                        if i2 == i as int {
                            if k != id {
                                assert(opm@.contains_key(k));
                            }
                        } else {
                            assert(self.stages@[i2] == pre.stages@[i2]);
                        }
                    }
                }
                Ok(id)
            },
        }
    }

    /// Removes the payload under `id` from the stage.
    pub fn del(&mut self, stage: &str, id: i64) -> (r: Result<(), PipelineError>)
        requires
            old(self).wf(),
        ensures
            final(self).wf(),
            final(self).id_counter == old(self).id_counter,
            match r {
                Ok(_) => {
                    &&& old(self).has_stage(stage@)
                    &&& old(self).stage_view(stage@).contains_key(id)
                    &&& final(self).stage_view(stage@) =~= old(self).stage_view(stage@).remove(id)
                    &&& Self::stages_unchanged_except(*old(self), *final(self), stage@)
                },
                Err(e) => {
                    &&& *final(self) == *old(self)
                    &&& (e == PipelineError::StageNotFound <==> !old(self).has_stage(stage@))
                    &&& (e == PipelineError::PayloadNotFound <==> old(self).has_stage(stage@)
                        && !old(self).stage_view(stage@).contains_key(id))
                    &&& (e == PipelineError::StageNotFound || e == PipelineError::PayloadNotFound)
                },
            },
    {
        let idx = self.find_stage(stage);
        match idx {
            None => Err(PipelineError::StageNotFound),
            Some(i) => {
                proof {
                    self.lemma_stage_index_is(i as int);
                }
                let present = self.stages[i].stage.payload.contains(id);
                if !present {
                    return Err(PipelineError::PayloadNotFound);
                }
                let ghost pre = *self;
                let entry = vstd::std_specs::vec::vec_index_mut(&mut self.stages, i);
                entry.stage.payload.remove(id);
                proof {
                    Self::lemma_update_stage_entry(pre, *self, i as int);
                    assert(self.stage_view(stage@) =~= pre.stage_view(stage@).remove(id));
                    assert forall|i2: int, k: i64|
                        0 <= i2 < self.stages@.len()
                            && #[trigger] self.stages@[i2].stage.payload@.contains_key(
                        k) implies payload_wf(self.stages@[i2].stage.payload@[k]) && payload_kind(
                        self.stages@[i2].stage.payload@[k]) == self.stages@[i2].stage_type by {
                        if i2 == i as int {
                            assert(pre.stages@[i2].stage.payload@.contains_key(k));
                        } else {
                            assert(self.stages@[i2] == pre.stages@[i2]);
                        }
                    }
                }
                Ok(())
            },
        }
    }

    /// Read access to an independent frame.
    pub fn get_independent_frame(&self, stage: &str, frame_id: i64) -> (r: Result<
        &VideoFrame,
        PipelineError,
    >)
        requires
            self.wf(),
        ensures
            match r {
                Ok(f) => {
                    &&& self.has_stage(stage@)
                    &&& self.stage_view(stage@).contains_key(frame_id)
                    &&& self.stage_view(stage@)[frame_id] is Frame
                    &&& f@ == self.stage_view(stage@)[frame_id]->Frame_0
                    &&& f.wf()
                },
                Err(e) => {
                    &&& (e == PipelineError::StageNotFound <==> !self.has_stage(stage@))
                    &&& (e == PipelineError::PayloadNotFound <==> self.has_stage(stage@)
                        && !self.stage_view(stage@).contains_key(frame_id))
                    &&& (e == PipelineError::PayloadKindMismatch <==> self.has_stage(stage@)
                        && self.stage_view(stage@).contains_key(frame_id) && !(self.stage_view(
                        stage@)[frame_id] is Frame))
                    &&& (e == PipelineError::StageNotFound || e == PipelineError::PayloadNotFound
                        || e == PipelineError::PayloadKindMismatch)
                },
            },
    {
        let idx = self.find_stage(stage);
        match idx {
            None => Err(PipelineError::StageNotFound),
            Some(i) => {
                proof {
                    self.lemma_stage_index_is(i as int);
                }
                match self.stages[i].stage.payload.get(frame_id) {
                    None => Err(PipelineError::PayloadNotFound),
                    Some(p) => match p {
                        PipelinePayload::Frame(f, _) => Ok(f),
                        PipelinePayload::Batch(_, _) => Err(PipelineError::PayloadKindMismatch),
                    },
                }
            },
        }
    }

    /// Read access to a batch.
    pub fn get_batch(&self, stage: &str, batch_id: i64) -> (r: Result<
        &VideoFrameBatch,
        PipelineError,
    >)
        requires
            self.wf(),
        ensures
            match r {
                Ok(b) => {
                    &&& self.has_stage(stage@)
                    &&& self.stage_view(stage@).contains_key(batch_id)
                    &&& self.stage_view(stage@)[batch_id] is Batch
                    &&& b@ == self.stage_view(stage@)[batch_id]->Batch_0
                    &&& b.wf()
                },
                Err(e) => {
                    &&& (e == PipelineError::StageNotFound <==> !self.has_stage(stage@))
                    &&& (e == PipelineError::PayloadNotFound <==> self.has_stage(stage@)
                        && !self.stage_view(stage@).contains_key(batch_id))
                    &&& (e == PipelineError::PayloadKindMismatch <==> self.has_stage(stage@)
                        && self.stage_view(stage@).contains_key(batch_id) && !(self.stage_view(
                        stage@)[batch_id] is Batch))
                    &&& (e == PipelineError::StageNotFound || e == PipelineError::PayloadNotFound
                        || e == PipelineError::PayloadKindMismatch)
                },
            },
    {
        let idx = self.find_stage(stage);
        match idx {
            None => Err(PipelineError::StageNotFound),
            Some(i) => {
                proof {
                    self.lemma_stage_index_is(i as int);
                }
                match self.stages[i].stage.payload.get(batch_id) {
                    None => Err(PipelineError::PayloadNotFound),
                    Some(p) => match p {
                        PipelinePayload::Batch(b, _) => Ok(b),
                        PipelinePayload::Frame(_, _) => Err(PipelineError::PayloadKindMismatch),
                    },
                }
            },
        }
    }

    /// Read access to one frame inside a batch.
    pub fn get_batched_frame(&self, stage: &str, batch_id: i64, frame_id: i64) -> (r: Result<
        &VideoFrame,
        PipelineError,
    >)
        requires
            self.wf(),
        ensures
            match r {
                Ok(f) => {
                    &&& self.has_stage(stage@)
                    &&& self.stage_view(stage@).contains_key(batch_id)
                    &&& self.stage_view(stage@)[batch_id] is Batch
                    &&& self.stage_view(stage@)[batch_id]->Batch_0.contains_key(frame_id)
                    &&& f@ == self.stage_view(stage@)[batch_id]->Batch_0[frame_id]
                    &&& f.wf()
                },
                Err(e) => {
                    &&& (e == PipelineError::StageNotFound <==> !self.has_stage(stage@))
                    &&& (e == PipelineError::PayloadNotFound <==> self.has_stage(stage@)
                        && !self.stage_view(stage@).contains_key(batch_id))
                    &&& (e == PipelineError::PayloadKindMismatch <==> self.has_stage(stage@)
                        && self.stage_view(stage@).contains_key(batch_id) && !(self.stage_view(
                        stage@)[batch_id] is Batch))
                    &&& (e == PipelineError::FrameNotFound <==> self.has_stage(stage@)
                        && self.stage_view(stage@).contains_key(batch_id) && self.stage_view(
                        stage@)[batch_id] is Batch && !self.stage_view(
                        stage@)[batch_id]->Batch_0.contains_key(frame_id))
                    &&& (e == PipelineError::StageNotFound || e == PipelineError::PayloadNotFound
                        || e == PipelineError::PayloadKindMismatch || e
                        == PipelineError::FrameNotFound)
                },
            },
    {
        let idx = self.find_stage(stage);
        match idx {
            None => Err(PipelineError::StageNotFound),
            Some(i) => {
                proof {
                    self.lemma_stage_index_is(i as int);
                }
                match self.stages[i].stage.payload.get(batch_id) {
                    None => Err(PipelineError::PayloadNotFound),
                    Some(p) => match p {
                        PipelinePayload::Batch(b, _) => match b.get(frame_id) {
                            Some(f) => Ok(f),
                            None => Err(PipelineError::FrameNotFound),
                        },
                        PipelinePayload::Frame(_, _) => Err(PipelineError::PayloadKindMismatch),
                    },
                }
            },
        }
    }

    /// Appends `update` to the pending list of an independent frame.
    pub fn add_frame_update(&mut self, stage: &str, frame_id: i64, update: VideoFrameUpdate) -> (r:
        Result<(), PipelineError>)
        requires
            old(self).wf(),
            update.wf(),
        ensures
            final(self).wf(),
            final(self).id_counter == old(self).id_counter,
            match r {
                Ok(_) => {
                    &&& old(self).has_stage(stage@)
                    &&& old(self).stage_view(stage@).contains_key(frame_id)
                    &&& old(self).stage_view(stage@)[frame_id] is Frame
                    &&& final(self).stage_view(stage@) =~= old(self).stage_view(stage@).insert(
                        frame_id,
                        PayloadV::Frame(
                            old(self).stage_view(stage@)[frame_id]->Frame_0,
                            old(self).stage_view(stage@)[frame_id]->Frame_1.push(update@),
                        ),
                    )
                    &&& Self::stages_unchanged_except(*old(self), *final(self), stage@)
                },
                Err(e) => {
                    &&& *final(self) == *old(self)
                    &&& (e == PipelineError::StageNotFound <==> !old(self).has_stage(stage@))
                    &&& (e == PipelineError::PayloadNotFound <==> old(self).has_stage(stage@)
                        && !old(self).stage_view(stage@).contains_key(frame_id))
                    &&& (e == PipelineError::PayloadKindMismatch <==> old(self).has_stage(stage@)
                        && old(self).stage_view(stage@).contains_key(frame_id) && !(old(
                        self).stage_view(stage@)[frame_id] is Frame))
                    &&& (e == PipelineError::StageNotFound || e == PipelineError::PayloadNotFound
                        || e == PipelineError::PayloadKindMismatch)
                },
            },
    {
        let idx = self.find_stage(stage);
        match idx {
            None => Err(PipelineError::StageNotFound),
            Some(i) => {
                proof {
                    self.lemma_stage_index_is(i as int);
                }
                let kind_ok = match self.stages[i].stage.payload.get(frame_id) {
                    None => {
                        return Err(PipelineError::PayloadNotFound);
                    },
                    Some(p) => match p {
                        PipelinePayload::Frame(_, _) => true,
                        PipelinePayload::Batch(_, _) => false,
                    },
                };
                if !kind_ok {
                    return Err(PipelineError::PayloadKindMismatch);
                }
                let ghost pre = *self;
                let ghost uv = update@;
                let entry = vstd::std_specs::vec::vec_index_mut(&mut self.stages, i);
                let removed = entry.stage.payload.remove(frame_id);
                match removed {
                    Some(PipelinePayload::Frame(f, mut ups)) => {
                        ups.push(update);
                        let payload = PipelinePayload::Frame(f, ups);
                        let ghost pval = payload;
                        entry.stage.payload.insert(frame_id, payload);
                        proof {
                            Self::lemma_update_stage_entry(pre, *self, i as int);
                            assert(pval@->Frame_1 =~= pre.stage_view(
                                stage@,
                            )[frame_id]->Frame_1.push(uv));
                            assert(self.stage_view(stage@) =~= pre.stage_view(stage@).insert(
                                frame_id,
                                PayloadV::Frame(
                                    pre.stage_view(stage@)[frame_id]->Frame_0,
                                    pre.stage_view(stage@)[frame_id]->Frame_1.push(uv),
                                ),
                            ));
                            assert forall|i2: int, k: i64|
                                0 <= i2 < self.stages@.len()
                                    && #[trigger] self.stages@[i2].stage.payload@.contains_key(
                            k) implies payload_wf(self.stages@[i2].stage.payload@[k])
                                && payload_kind(self.stages@[i2].stage.payload@[k])
                                == self.stages@[i2].stage_type by {
                                if i2 == i as int {
                                    if k != frame_id {
                                        assert(pre.stages@[i2].stage.payload@.contains_key(k));
                                    } else {
                                        assert(payload_wf(
                                            pre.stages@[i2].stage.payload@[frame_id],
                                        ));
                                        assert forall|q: int|
                                            0 <= q < pval->Frame_1@.len() implies (
                                        #[trigger] pval->Frame_1@[q]).wf() by {
                                            let oldups =
                                                pre.stages@[i2].stage.payload@[frame_id]->Frame_1;
                                            if q < oldups@.len() {
                                                assert(oldups@[q].wf());
                                            }
                                        }
                                    }
                                } else {
                                    assert(self.stages@[i2] == pre.stages@[i2]);
                                }
                            }
                        }
                        Ok(())
                    },
                    _ => {
                        proof {
                            assert(false);
                        }
                        Err(PipelineError::PayloadKindMismatch)
                    },
                }
            },
        }
    }

    /// Appends `update`, tagged with the id of its target frame, to the
    /// pending list of a batch.
    pub fn add_batched_frame_update(
        &mut self,
        stage: &str,
        batch_id: i64,
        frame_id: i64,
        update: VideoFrameUpdate,
    ) -> (r: Result<(), PipelineError>)
        requires
            old(self).wf(),
            update.wf(),
        ensures
            final(self).wf(),
            final(self).id_counter == old(self).id_counter,
            match r {
                Ok(_) => {
                    &&& old(self).has_stage(stage@)
                    &&& old(self).stage_view(stage@).contains_key(batch_id)
                    &&& old(self).stage_view(stage@)[batch_id] is Batch
                    &&& final(self).stage_view(stage@) =~= old(self).stage_view(stage@).insert(
                        batch_id,
                        PayloadV::Batch(
                            old(self).stage_view(stage@)[batch_id]->Batch_0,
                            old(self).stage_view(stage@)[batch_id]->Batch_1.push(
                                (frame_id, update@),
                            ),
                        ),
                    )
                    &&& Self::stages_unchanged_except(*old(self), *final(self), stage@)
                },
                Err(e) => {
                    &&& *final(self) == *old(self)
                    &&& (e == PipelineError::StageNotFound <==> !old(self).has_stage(stage@))
                    &&& (e == PipelineError::PayloadNotFound <==> old(self).has_stage(stage@)
                        && !old(self).stage_view(stage@).contains_key(batch_id))
                    &&& (e == PipelineError::PayloadKindMismatch <==> old(self).has_stage(stage@)
                        && old(self).stage_view(stage@).contains_key(batch_id) && !(old(
                        self).stage_view(stage@)[batch_id] is Batch))
                    &&& (e == PipelineError::StageNotFound || e == PipelineError::PayloadNotFound
                        || e == PipelineError::PayloadKindMismatch)
                },
            },
    {
        let idx = self.find_stage(stage);
        match idx {
            None => Err(PipelineError::StageNotFound),
            Some(i) => {
                proof {
                    self.lemma_stage_index_is(i as int);
                }
                let kind_ok = match self.stages[i].stage.payload.get(batch_id) {
                    None => {
                        return Err(PipelineError::PayloadNotFound);
                    },
                    Some(p) => match p {
                        PipelinePayload::Batch(_, _) => true,
                        PipelinePayload::Frame(_, _) => false,
                    },
                };
                if !kind_ok {
                    return Err(PipelineError::PayloadKindMismatch);
                }
                let ghost pre = *self;
                let ghost uv = update@;
                let entry = vstd::std_specs::vec::vec_index_mut(&mut self.stages, i);
                let removed = entry.stage.payload.remove(batch_id);
                match removed {
                    Some(PipelinePayload::Batch(b, mut ups)) => {
                        ups.push((frame_id, update));
                        let payload = PipelinePayload::Batch(b, ups);
                        let ghost pval = payload;
                        entry.stage.payload.insert(batch_id, payload);
                        proof {
                            Self::lemma_update_stage_entry(pre, *self, i as int);
                            assert(pval@->Batch_1 =~= pre.stage_view(
                                stage@,
                            )[batch_id]->Batch_1.push((frame_id, uv)));
                            assert(self.stage_view(stage@) =~= pre.stage_view(stage@).insert(
                                batch_id,
                                PayloadV::Batch(
                                    pre.stage_view(stage@)[batch_id]->Batch_0,
                                    pre.stage_view(stage@)[batch_id]->Batch_1.push(
                                        (frame_id, uv),
                                    ),
                                ),
                            ));
                            assert forall|i2: int, k: i64|
                                0 <= i2 < self.stages@.len()
                                    && #[trigger] self.stages@[i2].stage.payload@.contains_key(
                            k) implies payload_wf(self.stages@[i2].stage.payload@[k])
                                && payload_kind(self.stages@[i2].stage.payload@[k])
                                == self.stages@[i2].stage_type by {
                                if i2 == i as int {
                                    if k != batch_id {
                                        assert(pre.stages@[i2].stage.payload@.contains_key(k));
                                    } else {
                                        assert(payload_wf(
                                            pre.stages@[i2].stage.payload@[batch_id],
                                        ));
                                        assert forall|q: int|
                                            0 <= q < pval->Batch_1@.len() implies (
                                        #[trigger] pval->Batch_1@[q]).1.wf() by {
                                            let oldups =
                                                pre.stages@[i2].stage.payload@[batch_id]->Batch_1;
                                            if q < oldups@.len() {
                                                assert(oldups@[q].1.wf());
                                            }
                                        }
                                    }
                                } else {
                                    assert(self.stages@[i2] == pre.stages@[i2]);
                                }
                            }
                        }
                        Ok(())
                    },
                    _ => {
                        proof {
                            assert(false);
                        }
                        Err(PipelineError::PayloadKindMismatch)
                    },
                }
            },
        }
    }

    /// Drains the pending list of the payload under `id` and applies each
    /// update in order: to the frame itself, or, in a batch, to the frame
    /// each update's tag names (a tag naming no frame of the batch is
    /// skipped). A refused update stops the walk and is reported; the
    /// drained updates are not re-queued either way.
    pub fn apply_updates(&mut self, stage: &str, id: i64) -> (r: Result<(), PipelineError>)
        requires
            old(self).wf(),
        ensures
            final(self).wf(),
            final(self).id_counter == old(self).id_counter,
            match r {
                Ok(_) => {
                    &&& old(self).has_stage(stage@)
                    &&& old(self).stage_view(stage@).contains_key(id)
                    &&& Self::stages_unchanged_except(*old(self), *final(self), stage@)
                    &&& match old(self).stage_view(stage@)[id] {
                        PayloadV::Frame(fv, pend) => {
                            &&& spec_apply_pending(fv, pend).1
                            &&& final(self).stage_view(stage@) =~= old(self).stage_view(
                                stage@,
                            ).insert(
                                id,
                                PayloadV::Frame(
                                    spec_apply_pending(fv, pend).0,
                                    Seq::empty(),
                                ),
                            )
                        },
                        PayloadV::Batch(bv, pend) => {
                            &&& spec_apply_batch_pending(bv, pend).1
                            &&& final(self).stage_view(stage@) =~= old(self).stage_view(
                                stage@,
                            ).insert(
                                id,
                                PayloadV::Batch(
                                    spec_apply_batch_pending(bv, pend).0,
                                    Seq::empty(),
                                ),
                            )
                        },
                    }
                },
                Err(PipelineError::UpdateFailed(fe)) => {
                    &&& old(self).has_stage(stage@)
                    &&& old(self).stage_view(stage@).contains_key(id)
                    &&& fe == crate::errors::FrameError::ObjectIdCollision
                    &&& Self::stages_unchanged_except(*old(self), *final(self), stage@)
                    &&& match old(self).stage_view(stage@)[id] {
                        PayloadV::Frame(fv, pend) => {
                            &&& !spec_apply_pending(fv, pend).1
                            &&& final(self).stage_view(stage@) =~= old(self).stage_view(
                                stage@,
                            ).insert(
                                id,
                                PayloadV::Frame(
                                    spec_apply_pending(fv, pend).0,
                                    Seq::empty(),
                                ),
                            )
                        },
                        PayloadV::Batch(bv, pend) => {
                            &&& !spec_apply_batch_pending(bv, pend).1
                            &&& final(self).stage_view(stage@) =~= old(self).stage_view(
                                stage@,
                            ).insert(
                                id,
                                PayloadV::Batch(
                                    spec_apply_batch_pending(bv, pend).0,
                                    Seq::empty(),
                                ),
                            )
                        },
                    }
                },
                Err(e) => {
                    &&& *final(self) == *old(self)
                    &&& (e == PipelineError::StageNotFound <==> !old(self).has_stage(stage@))
                    &&& (e == PipelineError::PayloadNotFound <==> old(self).has_stage(stage@)
                        && !old(self).stage_view(stage@).contains_key(id))
                    &&& (e == PipelineError::StageNotFound || e == PipelineError::PayloadNotFound)
                },
            },
    {
        let idx = self.find_stage(stage);
        match idx {
            None => Err(PipelineError::StageNotFound),
            Some(i) => {
                proof {
                    self.lemma_stage_index_is(i as int);
                }
                if !self.stages[i].stage.payload.contains(id) {
                    return Err(PipelineError::PayloadNotFound);
                }
                let ghost pre = *self;
                let entry = vstd::std_specs::vec::vec_index_mut(&mut self.stages, i);
                let removed = entry.stage.payload.remove(id);
                match removed {
                    Some(PipelinePayload::Frame(mut f, ups)) => {
                        let ghost fv0 = f@;
                        let ghost upsv = ups.deep_view();
                        proof {
                            assert(pre.stage_view(stage@)[id] == PayloadV::Frame(fv0, upsv));
                            assert(payload_wf(pre.stages@[i as int].stage.payload@[id]));
                        }
                        let n = ups.len();
                        let mut k: usize = 0;
                        let mut ok = true;
                        while k < n && ok
                            invariant
                                n == ups@.len(),
                                upsv == ups.deep_view(),
                                k <= n,
                                f.wf(),
                                forall|q: int| 0 <= q < n ==> (#[trigger] ups@[q]).wf(),
                                ok ==> (f@, true) == spec_apply_pending(fv0, upsv.take(k as int)),
                                !ok ==> spec_apply_pending(fv0, upsv) == (f@, false),
                            decreases n - k,
                        {
                            let ghost fprev = f@;
                            let step = f.update(&ups[k]);
                            proof {
                                assert(upsv.take(k + 1).drop_last() =~= upsv.take(k as int));
                                assert(upsv.take(k + 1).last() == upsv[k as int]);
                                assert(f@ =~= spec_frame_after_update(fprev, upsv[k as int]).0);
                            }
                            match step {
                                Ok(_) => {
                                    proof {
                                        assert((f@, true) == spec_apply_pending(
                                            fv0,
                                            upsv.take(k + 1),
                                        ));
                                    }
                                },
                                Err(_) => {
                                    ok = false;
                                    proof {
                                        assert(spec_apply_pending(fv0, upsv.take(k + 1)) == (
                                            f@,
                                            false,
                                        ));
                                        lemma_apply_pending_fail_stable(fv0, upsv, k + 1);
                                    }
                                },
                            }
                            k += 1;
                        }
                        proof {
                            if ok {
                                assert(upsv.take(n as int) =~= upsv);
                            }
                        }
                        let payload = PipelinePayload::Frame(f, Vec::new());
                        let ghost pval = payload;
                        entry.stage.payload.insert(id, payload);
                        proof {
                            Self::lemma_update_stage_entry(pre, *self, i as int);
                            assert(pval@->Frame_1 =~= Seq::<UpdateView>::empty());
                            assert(self.stage_view(stage@) =~= pre.stage_view(stage@).insert(
                                id,
                                PayloadV::Frame(spec_apply_pending(fv0, upsv).0, Seq::empty()),
                            ));
                            assert forall|i2: int, k2: i64|
                                0 <= i2 < self.stages@.len()
                                    && #[trigger] self.stages@[i2].stage.payload@.contains_key(
                            k2) implies payload_wf(self.stages@[i2].stage.payload@[k2])
                                && payload_kind(self.stages@[i2].stage.payload@[k2])
                                == self.stages@[i2].stage_type by {
                                if i2 == i as int {
                                    if k2 != id {
                                        assert(pre.stages@[i2].stage.payload@.contains_key(k2));
                                    }
                                } else {
                                    assert(self.stages@[i2] == pre.stages@[i2]);
                                }
                            }
                        }
                        if ok {
                            Ok(())
                        } else {
                            Err(
                                PipelineError::UpdateFailed(
                                    crate::errors::FrameError::ObjectIdCollision,
                                ),
                            )
                        }
                    },
                    Some(PipelinePayload::Batch(mut b, ups)) => {
                        let ghost bv0 = b@;
                        let ghost upsv = tagged_pending(ups@);
                        proof {
                            assert(pre.stage_view(stage@)[id] == PayloadV::Batch(bv0, upsv));
                            assert(payload_wf(pre.stages@[i as int].stage.payload@[id]));
                        }
                        let n = ups.len();
                        let mut k: usize = 0;
                        let mut ok = true;
                        while k < n && ok
                            invariant
                                n == ups@.len(),
                                upsv == tagged_pending(ups@),
                                k <= n,
                                b.wf(),
                                forall|q: int| 0 <= q < n ==> (#[trigger] ups@[q]).1.wf(),
                                ok ==> (b@, true) == spec_apply_batch_pending(
                                    bv0,
                                    upsv.take(k as int),
                                ),
                                !ok ==> spec_apply_batch_pending(bv0, upsv) == (b@, false),
                            decreases n - k,
                        {
                            let ghost bprev = b@;
                            let fid = ups[k].0;
                            proof {
                                assert(upsv.take(k + 1).drop_last() =~= upsv.take(k as int));
                                assert(upsv.take(k + 1).last() == upsv[k as int]);
                                assert(upsv[k as int] == (fid, ups@[k as int].1@));
                            }
                            let fr_opt = b.frames.remove(fid);
                            match fr_opt {
                                None => {
                                    proof {
                                        assert(!bprev.contains_key(fid));
                                        assert(b@ =~= bprev);
                                        assert((b@, true) == spec_apply_batch_pending(
                                            bv0,
                                            upsv.take(k + 1),
                                        ));
                                    }
                                },
                                Some(mut fr) => {
                                    proof {
                                        assert(bprev.contains_key(fid));
                                        assert(fr@ == bprev[fid]);
                                        assert(fr.wf());
                                    }
                                    let ghost fprev = fr@;
                                    let step = fr.update(&ups[k].1);
                                    proof {
                                        assert(fr@ =~= spec_frame_after_update(
                                            fprev,
                                            upsv[k as int].1,
                                        ).0);
                                    }
                                    b.frames.insert(fid, fr);
                                    proof {
                                        assert(b@ =~= bprev.insert(
                                            fid,
                                            spec_frame_after_update(fprev, upsv[k as int].1).0,
                                        ));
                                    }
                                    match step {
                                        Ok(_) => {
                                            proof {
                                                assert((b@, true) == spec_apply_batch_pending(
                                                    bv0,
                                                    upsv.take(k + 1),
                                                ));
                                            }
                                        },
                                        Err(_) => {
                                            ok = false;
                                            proof {
                                                assert(spec_apply_batch_pending(
                                                    bv0,
                                                    upsv.take(k + 1),
                                                ) == (b@, false));
                                                lemma_apply_batch_pending_fail_stable(
                                                    bv0,
                                                    upsv,
                                                    k + 1,
                                                );
                                            }
                                        },
                                    }
                                },
                            }
                            k += 1;
                        }
                        proof {
                            if ok {
                                assert(upsv.take(n as int) =~= upsv);
                            }
                        }
                        let payload = PipelinePayload::Batch(b, Vec::new());
                        let ghost pval = payload;
                        entry.stage.payload.insert(id, payload);
                        proof {
                            Self::lemma_update_stage_entry(pre, *self, i as int);
                            assert(pval@->Batch_1 =~= Seq::<(i64, UpdateView)>::empty());
                            assert(self.stage_view(stage@) =~= pre.stage_view(stage@).insert(
                                id,
                                PayloadV::Batch(
                                    spec_apply_batch_pending(bv0, upsv).0,
                                    Seq::empty(),
                                ),
                            ));
                            assert forall|i2: int, k2: i64|
                                0 <= i2 < self.stages@.len()
                                    && #[trigger] self.stages@[i2].stage.payload@.contains_key(
                            k2) implies payload_wf(self.stages@[i2].stage.payload@[k2])
                                && payload_kind(self.stages@[i2].stage.payload@[k2])
                                == self.stages@[i2].stage_type by {
                                if i2 == i as int {
                                    if k2 != id {
                                        assert(pre.stages@[i2].stage.payload@.contains_key(k2));
                                    }
                                } else {
                                    assert(self.stages@[i2] == pre.stages@[i2]);
                                }
                            }
                        }
                        if ok {
                            Ok(())
                        } else {
                            Err(
                                PipelineError::UpdateFailed(
                                    crate::errors::FrameError::ObjectIdCollision,
                                ),
                            )
                        }
                    },
                    None => {
                        proof {
                            assert(false);
                        }
                        Err(PipelineError::PayloadNotFound)
                    },
                }
            },
        }
    }

    /// Moves the payloads under `object_ids` from one stage to another of
    /// the same type, keeping their ids. The call moves either every id
    /// or, when one is absent, nothing.
    pub fn move_as_is(&mut self, source_stage: &str, dest_stage: &str, object_ids: Vec<i64>) -> (r:
        Result<(), PipelineError>)
        requires
            old(self).wf(),
        ensures
            final(self).wf(),
            final(self).id_counter == old(self).id_counter,
            match r {
                Ok(_) => {
                    &&& old(self).has_stage(source_stage@)
                    &&& old(self).has_stage(dest_stage@)
                    &&& old(self).stage_type_of(source_stage@) == old(self).stage_type_of(
                        dest_stage@,
                    )
                    &&& forall|p: int|
                        0 <= p < object_ids@.len() ==> old(self).stage_view(
                            source_stage@,
                        ).contains_key(#[trigger] object_ids@[p])
                    &&& (source_stage@ == dest_stage@ ==> *final(self) == *old(self))
                    &&& (source_stage@ != dest_stage@ ==> {
                        &&& final(self).stage_view(source_stage@) =~= old(self).stage_view(
                            source_stage@,
                        ).remove_keys(prefix_set(object_ids@, object_ids@.len() as int))
                        &&& final(self).stage_view(dest_stage@) =~= old(self).stage_view(
                            dest_stage@,
                        ).union_prefer_right(
                            old(self).stage_view(source_stage@).restrict(
                                prefix_set(object_ids@, object_ids@.len() as int),
                            ),
                        )
                        &&& Self::stages_unchanged_except2(
                            *old(self),
                            *final(self),
                            source_stage@,
                            dest_stage@,
                        )
                    })
                },
                Err(e) => {
                    &&& *final(self) == *old(self)
                    &&& (e == PipelineError::StageTypeMismatch <==> old(self).stage_type_opt(
                        source_stage@,
                    ) != old(self).stage_type_opt(dest_stage@))
                    &&& (e == PipelineError::StageNotFound <==> old(self).stage_type_opt(
                        source_stage@,
                    ) == old(self).stage_type_opt(dest_stage@) && !(old(self).has_stage(
                        source_stage@,
                    ) && old(self).has_stage(dest_stage@)))
                    &&& (e == PipelineError::PayloadNotFound <==> old(self).has_stage(
                        source_stage@,
                    ) && old(self).has_stage(dest_stage@) && old(self).stage_type_of(
                        source_stage@,
                    ) == old(self).stage_type_of(dest_stage@) && exists|p: int|
                        0 <= p < object_ids@.len() && !old(self).stage_view(
                            source_stage@,
                        ).contains_key(#[trigger] object_ids@[p]))
                    &&& (e == PipelineError::StageTypeMismatch || e == PipelineError::StageNotFound
                        || e == PipelineError::PayloadNotFound)
                },
            },
    {
        let si_opt = self.find_stage(source_stage);
        let dj_opt = self.find_stage(dest_stage);
        let (si, dj) = match (si_opt, dj_opt) {
            (Some(si), Some(dj)) => {
                proof {
                    self.lemma_stage_index_is(si as int);
                    self.lemma_stage_index_is(dj as int);
                }
                if !(self.stages[si].stage_type == self.stages[dj].stage_type) {
                    return Err(PipelineError::StageTypeMismatch);
                }
                (si, dj)
            },
            (None, None) => {
                return Err(PipelineError::StageNotFound);
            },
            _ => {
                return Err(PipelineError::StageTypeMismatch);
            },
        };
        let n = object_ids.len();
        let mut q: usize = 0;
        while q < n
            invariant
                self.wf(),
                *self == *old(self),
                n == object_ids@.len(),
                q <= n,
                si < self.stages@.len(),
                dj < self.stages@.len(),
                self.stages@[si as int].name@ == source_stage@,
                self.stages@[dj as int].name@ == dest_stage@,
                self.stages@[si as int].stage_type == self.stages@[dj as int].stage_type,
                forall|p: int|
                    0 <= p < q ==> self.stage_view(source_stage@).contains_key(
                        #[trigger] object_ids@[p],
                    ),
            decreases n - q,
        {
            proof {
                self.lemma_stage_index_is(si as int);
            }
            if !self.stages[si].stage.payload.contains(object_ids[q]) {
                proof {
                    self.lemma_stage_index_is(si as int);
                    self.lemma_stage_index_is(dj as int);
                }
                return Err(PipelineError::PayloadNotFound);
            }
            q += 1;
        }
        if si == dj {
            return Ok(());
        }
        let ghost pre = *self;
        let ghost s = source_stage@;
        let ghost d = dest_stage@;
        let ghost idsv = object_ids@;
        proof {
            pre.lemma_stage_index_is(si as int);
            pre.lemma_stage_index_is(dj as int);
            assert(prefix_set(idsv, 0) =~= Set::<i64>::empty());
            assert(self.stage_view(s) =~= pre.stage_view(s).remove_keys(prefix_set(idsv, 0)));
            assert(self.stage_view(d) =~= pre.stage_view(d).union_prefer_right(
                pre.stage_view(s).restrict(prefix_set(idsv, 0)),
            ));
        }
        let mut w: usize = 0;
        while w < n
            invariant
                n == object_ids@.len(),
                idsv == object_ids@,
                w <= n,
                si < pre.stages@.len(),
                dj < pre.stages@.len(),
                si != dj,
                pre.wf(),
                pre.stages@[si as int].name@ == s,
                pre.stages@[dj as int].name@ == d,
                s != d,
                forall|p: int|
                    0 <= p < n ==> pre.stage_view(s).contains_key(#[trigger] idsv[p]),
                self.wf(),
                self.id_counter == pre.id_counter,
                self.stages@.len() == pre.stages@.len(),
                self.stages@[si as int].name@ == s,
                self.stages@[dj as int].name@ == d,
                self.stages@[si as int].stage_type == pre.stages@[si as int].stage_type,
                self.stages@[dj as int].stage_type == pre.stages@[dj as int].stage_type,
                pre.stages@[si as int].stage_type == pre.stages@[dj as int].stage_type,
                forall|j: int|
                    0 <= j < pre.stages@.len() && j != si && j != dj ==> #[trigger] self.stages@[j]
                        == pre.stages@[j],
                self.stage_view(s) =~= pre.stage_view(s).remove_keys(prefix_set(idsv, w as int)),
                self.stage_view(d) =~= pre.stage_view(d).union_prefer_right(
                    pre.stage_view(s).restrict(prefix_set(idsv, w as int)),
                ),
            decreases n - w,
        {
            let oid = object_ids[w];
            let ghost mid0 = *self;
            proof {
                mid0.lemma_stage_index_is(si as int);
                mid0.lemma_stage_index_is(dj as int);
            }
            let removed = {
                let entry = vstd::std_specs::vec::vec_index_mut(&mut self.stages, si);
                entry.stage.payload.remove(oid)
            };
            proof {
                Self::lemma_update_stage_entry(mid0, *self, si as int);
                assert(prefix_set(idsv, w + 1) =~= prefix_set(idsv, w as int).insert(oid));
                assert forall|i2: int, k2: i64|
                    0 <= i2 < self.stages@.len()
                        && #[trigger] self.stages@[i2].stage.payload@.contains_key(
                k2) implies payload_wf(self.stages@[i2].stage.payload@[k2]) && payload_kind(
                    self.stages@[i2].stage.payload@[k2]) == self.stages@[i2].stage_type by {
                    if i2 == si as int {
                        assert(mid0.stages@[i2].stage.payload@.contains_key(k2));
                        assert(self.stages@[i2].stage.payload@[k2]
                            == mid0.stages@[i2].stage.payload@[k2]);
                    } else {
                        assert(self.stages@[i2] == mid0.stages@[i2]);
                    }
                }
                assert(self.wf());
            }
            match removed {
                None => {
                    proof {
                        assert(!mid0.stage_view(s).contains_key(oid));
                        assert(pre.stage_view(s).contains_key(oid));
                        assert(prefix_set(idsv, w as int).contains(oid));
                        assert(prefix_set(idsv, w + 1) =~= prefix_set(idsv, w as int));
                        assert(self.stage_view(s) =~= mid0.stage_view(s));
                        assert(self.stage_view(d) =~= mid0.stage_view(d));
                    }
                },
                Some(p) => {
                    let ghost pval = p;
                    let ghost mid1 = *self;
                    proof {
                        assert(mid0.stage_view(s).contains_key(oid));
                        assert(pval@ == mid0.stage_view(s)[oid]);
                        assert(pval@ == pre.stage_view(s)[oid]);
                        assert(payload_wf(pval));
                        assert(payload_kind(pval) == pre.stages@[si as int].stage_type);
                        assert(self.stage_view(s) =~= mid0.stage_view(s).remove(oid));
                        assert(self.stage_view(s) =~= pre.stage_view(s).remove_keys(
                            prefix_set(idsv, w + 1),
                        ));
                        mid1.lemma_stage_index_is(dj as int);
                    }
                    {
                        let entry2 = vstd::std_specs::vec::vec_index_mut(&mut self.stages, dj);
                        entry2.stage.payload.insert(oid, p);
                    }
                    proof {
                        Self::lemma_update_stage_entry(mid1, *self, dj as int);
                        assert(self.stage_view(d) =~= mid1.stage_view(d).insert(oid, pval@));
                        assert(self.stage_view(d) =~= pre.stage_view(d).union_prefer_right(
                            pre.stage_view(s).restrict(prefix_set(idsv, w + 1)),
                        ));
                        assert(self.stage_view(s) =~= mid1.stage_view(s));
                        assert forall|i2: int, k2: i64|
                            0 <= i2 < self.stages@.len()
                                && #[trigger] self.stages@[i2].stage.payload@.contains_key(
                        k2) implies payload_wf(self.stages@[i2].stage.payload@[k2])
                            && payload_kind(self.stages@[i2].stage.payload@[k2])
                            == self.stages@[i2].stage_type by {
                            if i2 == dj as int {
                                if k2 != oid {
                                    assert(mid1.stages@[i2].stage.payload@.contains_key(k2));
                                    assert(self.stages@[i2].stage.payload@[k2]
                                        == mid1.stages@[i2].stage.payload@[k2]);
                                } else {
                                    assert(self.stages@[i2].stage.payload@[k2] == pval);
                                    assert(self.stages@[i2].stage_type
                                        == mid1.stages@[i2].stage_type);
                                    assert(mid1.stages@[dj as int].stage_type
                                        == pre.stages@[dj as int].stage_type);
                                    assert(payload_kind(pval)
                                        == self.stages@[i2].stage_type);
                                }
                            } else {
                                assert(self.stages@[i2] == mid1.stages@[i2]);
                            }
                        }
                    }
                },
            }
            w += 1;
        }
        proof {
            Self::lemma_same_entries_same_views(pre, *self);
            assert forall|m: Seq<char>|
                pre.has_stage(m) implies #[trigger] self.stage_type_of(m) == pre.stage_type_of(
                m,
            ) by {
                let j = pre.stage_index(m);
                pre.lemma_stage_index_is(j);
                if j != si as int && j != dj as int {
                    assert(self.stages@[j] == pre.stages@[j]);
                }
            }
            assert forall|m: Seq<char>|
                pre.has_stage(m) && m != s && m != d implies #[trigger] self.stage_view(m)
                == pre.stage_view(m) by {
                let j = pre.stage_index(m);
                pre.lemma_stage_index_is(j);
                assert(j != si as int && j != dj as int);
                assert(self.stages@[j] == pre.stages@[j]);
                assert(self.stage_view(m) =~= pre.stage_view(m));
            }
        }
        Ok(())
    }

    /// Takes the named frames out of a frame stage, packs them into a new
    /// batch keyed by their old ids, concatenates their pending updates
    /// tagged with those ids, and files the batch in a batch stage under
    /// a freshly allocated id. Ids naming no frame are silently skipped.
    pub fn move_and_pack_frames(
        &mut self,
        source_stage: &str,
        dest_stage: &str,
        frame_ids: Vec<i64>,
    ) -> (r: Result<i64, PipelineError>)
        requires
            old(self).wf(),
            old(self).id_counter < i64::MAX,
        ensures
            final(self).wf(),
            match r {
                Ok(batch_id) => {
                    &&& old(self).has_stage(source_stage@)
                    &&& old(self).has_stage(dest_stage@)
                    &&& old(self).stage_type_of(source_stage@)
                        == VideoPipelineStagePayloadType::Frame
                    &&& old(self).stage_type_of(dest_stage@)
                        == VideoPipelineStagePayloadType::Batch
                    &&& batch_id == old(self).id_counter + 1
                    &&& final(self).id_counter == batch_id
                    &&& final(self).stage_view(source_stage@) =~= spec_pack(
                        old(self).stage_view(source_stage@),
                        frame_ids@,
                    ).0
                    &&& final(self).stage_view(dest_stage@) =~= old(self).stage_view(
                        dest_stage@,
                    ).insert(
                        batch_id,
                        PayloadV::Batch(
                            spec_pack(old(self).stage_view(source_stage@), frame_ids@).1,
                            spec_pack(old(self).stage_view(source_stage@), frame_ids@).2,
                        ),
                    )
                    &&& Self::stages_unchanged_except2(
                        *old(self),
                        *final(self),
                        source_stage@,
                        dest_stage@,
                    )
                },
                Err(e) => {
                    &&& *final(self) == *old(self)
                    &&& (e == PipelineError::StageTypeMismatch <==> old(self).stage_type_opt(
                        source_stage@,
                    ) == Some(VideoPipelineStagePayloadType::Batch) || old(self).stage_type_opt(
                        dest_stage@,
                    ) == Some(VideoPipelineStagePayloadType::Frame))
                    &&& (e == PipelineError::StageNotFound <==> e
                        != PipelineError::StageTypeMismatch && !(old(self).has_stage(
                        source_stage@,
                    ) && old(self).has_stage(dest_stage@)))
                    &&& (e == PipelineError::StageTypeMismatch || e
                        == PipelineError::StageNotFound)
                },
            },
    {
        let si_opt = self.find_stage(source_stage);
        let dj_opt = self.find_stage(dest_stage);
        let src_bad = match si_opt {
            Some(i) => {
                proof {
                    self.lemma_stage_index_is(i as int);
                }
                match self.stages[i].stage_type {
                    VideoPipelineStagePayloadType::Batch => true,
                    VideoPipelineStagePayloadType::Frame => false,
                }
            },
            None => false,
        };
        let dst_bad = match dj_opt {
            Some(j) => {
                proof {
                    self.lemma_stage_index_is(j as int);
                }
                match self.stages[j].stage_type {
                    VideoPipelineStagePayloadType::Frame => true,
                    VideoPipelineStagePayloadType::Batch => false,
                }
            },
            None => false,
        };
        if src_bad || dst_bad {
            return Err(PipelineError::StageTypeMismatch);
        }
        let (si, dj) = match (si_opt, dj_opt) {
            (Some(si), Some(dj)) => (si, dj),
            _ => {
                return Err(PipelineError::StageNotFound);
            },
        };
        proof {
            self.lemma_stage_index_is(si as int);
            self.lemma_stage_index_is(dj as int);
            assert(si != dj);
            assert(source_stage@ != dest_stage@);
        }
        let ghost pre = *self;
        let ghost s = source_stage@;
        let ghost d = dest_stage@;
        let ghost idsv = frame_ids@;
        let mut batch = VideoFrameBatch::new();
        let mut batch_updates: Vec<(i64, VideoFrameUpdate)> = Vec::new();
        let n = frame_ids.len();
        let mut w: usize = 0;
        proof {
            assert(self.stage_view(s) =~= spec_pack(pre.stage_view(s), idsv.take(0)).0);
            assert(batch@ =~= spec_pack(pre.stage_view(s), idsv.take(0)).1);
            assert(tagged_pending(batch_updates@) =~= spec_pack(
                pre.stage_view(s),
                idsv.take(0),
            ).2);
        }
        while w < n
            invariant
                n == frame_ids@.len(),
                idsv == frame_ids@,
                w <= n,
                si < pre.stages@.len(),
                dj < pre.stages@.len(),
                si != dj,
                pre.wf(),
                pre.stages@[si as int].name@ == s,
                pre.stages@[dj as int].name@ == d,
                pre.stages@[si as int].stage_type == VideoPipelineStagePayloadType::Frame,
                pre.stages@[dj as int].stage_type == VideoPipelineStagePayloadType::Batch,
                s != d,
                self.wf(),
                self.id_counter == pre.id_counter,
                self.stages@.len() == pre.stages@.len(),
                self.stages@[si as int].name@ == s,
                self.stages@[si as int].stage_type == pre.stages@[si as int].stage_type,
                forall|j: int|
                    0 <= j < pre.stages@.len() && j != si ==> #[trigger] self.stages@[j]
                        == pre.stages@[j],
                batch.wf(),
                forall|q: int| 0 <= q < batch_updates@.len() ==> (#[trigger] batch_updates@[q]).1.wf(),
                self.stage_view(s) =~= spec_pack(pre.stage_view(s), idsv.take(w as int)).0,
                batch@ =~= spec_pack(pre.stage_view(s), idsv.take(w as int)).1,
                tagged_pending(batch_updates@) =~= spec_pack(
                    pre.stage_view(s),
                    idsv.take(w as int),
                ).2,
            decreases n - w,
        {
            let oid = frame_ids[w];
            let ghost mid0 = *self;
            proof {
                mid0.lemma_stage_index_is(si as int);
                assert(idsv.take(w + 1).drop_last() =~= idsv.take(w as int));
                assert(idsv.take(w + 1).last() == idsv[w as int]);
            }
            let removed = {
                let entry = vstd::std_specs::vec::vec_index_mut(&mut self.stages, si);
                entry.stage.payload.remove(oid)
            };
            proof {
                Self::lemma_update_stage_entry(mid0, *self, si as int);
                assert forall|i2: int, k2: i64|
                    0 <= i2 < self.stages@.len()
                        && #[trigger] self.stages@[i2].stage.payload@.contains_key(
                k2) implies payload_wf(self.stages@[i2].stage.payload@[k2]) && payload_kind(
                    self.stages@[i2].stage.payload@[k2]) == self.stages@[i2].stage_type by {
                    if i2 == si as int {
                        assert(mid0.stages@[i2].stage.payload@.contains_key(k2));
                        assert(self.stages@[i2].stage.payload@[k2]
                            == mid0.stages@[i2].stage.payload@[k2]);
                    } else {
                        assert(self.stages@[i2] == mid0.stages@[i2]);
                    }
                }
                assert(self.wf());
            }
            match removed {
                None => {
                    proof {
                        assert(!mid0.stage_view(s).contains_key(oid));
                        assert(self.stage_view(s) =~= mid0.stage_view(s));
                        assert(self.stage_view(s) =~= spec_pack(
                            pre.stage_view(s),
                            idsv.take(w + 1),
                        ).0);
                    }
                },
                Some(p) => {
                    let ghost pval = p;
                    proof {
                        assert(mid0.stage_view(s).contains_key(oid));
                        assert(pval@ == mid0.stage_view(s)[oid]);
                        assert(payload_wf(pval));
                        assert(payload_kind(pval)
                            == VideoPipelineStagePayloadType::Frame);
                        assert(self.stage_view(s) =~= mid0.stage_view(s).remove(oid));
                    }
                    match p {
                        PipelinePayload::Frame(f, mut ups) => {
                            let ghost fv = f@;
                            let ghost pend0 = ups.deep_view();
                            let ghost base = tagged_pending(batch_updates@);
                            proof {
                                assert(pval@ == PayloadV::Frame(fv, pend0));
                            }
                            batch.add(oid, f);
                            let pend_len = ups.len();
                            let mut t: usize = 0;
                            while ups.len() > 0
                                invariant
                                    ups.deep_view() =~= pend0.skip(t as int),
                                    t <= pend0.len(),
                                    pend0.len() == pend_len,
                                    t + ups@.len() == pend0.len(),
                                    forall|q: int|
                                        0 <= q < batch_updates@.len() ==> (
                                        #[trigger] batch_updates@[q]).1.wf(),
                                    forall|q: int|
                                        0 <= q < ups@.len() ==> (#[trigger] ups@[q]).wf(),
                                    tagged_pending(batch_updates@) =~= base + tag_seq(
                                        oid,
                                        pend0.take(t as int),
                                    ),
                                decreases ups@.len(),
                            {
                                let ghost prev_vec = ups@;
                                let ghost prev_dv = ups.deep_view();
                                let ghost prev_bu = batch_updates@;
                                let u = ups.remove(0);
                                proof {
                                    assert(u == prev_vec[0]);
                                    assert(u@ == prev_dv[0]);
                                    assert(u@ == pend0[t as int]);
                                    assert forall|q: int|
                                        0 <= q < ups@.len() implies #[trigger] ups.deep_view()[q]
                                        == pend0[t + 1 + q] by {
                                        assert(ups@[q] == prev_vec.subrange(
                                            1,
                                            prev_vec.len() as int,
                                        )[q]);
                                        assert(ups@[q] == prev_vec[q + 1]);
                                        assert(ups.deep_view()[q] == ups@[q].deep_view());
                                        assert(prev_dv[q + 1] == prev_vec[q + 1].deep_view());
                                        assert(prev_dv[q + 1] == pend0.skip(t as int)[q + 1]);
                                    }
                                    assert(ups.deep_view() =~= pend0.skip(t + 1));
                                }
                                batch_updates.push((oid, u));
                                proof {
                                    let lhs_prev = tagged_pending(prev_bu);
                                    let rhs_prev = base + tag_seq(oid, pend0.take(t as int));
                                    assert(lhs_prev == rhs_prev);
                                    assert(lhs_prev.len() == prev_bu.len());
                                    assert(tag_seq(oid, pend0.take(t as int)).len() == t);
                                    assert(prev_bu.len() == base.len() + t);
                                    assert forall|q: int|
                                        0 <= q < batch_updates@.len() implies
                                        #[trigger] tagged_pending(batch_updates@)[q] == (base
                                        + tag_seq(oid, pend0.take(t + 1)))[q] by {
                                        let rhs = base + tag_seq(oid, pend0.take(t + 1));
                                        if q < prev_bu.len() {
                                            assert(batch_updates@[q] == prev_bu[q]);
                                            assert(tagged_pending(batch_updates@)[q]
                                                == lhs_prev[q]);
                                            assert(lhs_prev[q] == rhs_prev[q]);
                                            if q < base.len() {
                                                assert(rhs_prev[q] == base[q]);
                                                assert(rhs[q] == base[q]);
                                            } else {
                                                assert(rhs_prev[q] == tag_seq(
                                                    oid,
                                                    pend0.take(t as int),
                                                )[q - base.len()]);
                                                assert(rhs[q] == tag_seq(
                                                    oid,
                                                    pend0.take(t + 1),
                                                )[q - base.len()]);
                                                assert(pend0.take(t as int)[q - base.len()]
                                                    == pend0[q - base.len()]);
                                                assert(pend0.take(t + 1)[q - base.len()]
                                                    == pend0[q - base.len()]);
                                            }
                                        } else {
                                            assert(q == prev_bu.len());
                                            assert(batch_updates@[q] == (oid, u));
                                            assert(tagged_pending(batch_updates@)[q] == (
                                                oid,
                                                u@,
                                            ));
                                            assert(rhs[q] == tag_seq(
                                                oid,
                                                pend0.take(t + 1),
                                            )[t as int]);
                                            assert(pend0.take(t + 1)[t as int]
                                                == pend0[t as int]);
                                        }
                                    }
                                    assert(tagged_pending(batch_updates@) =~= base + tag_seq(
                                        oid,
                                        pend0.take(t + 1),
                                    ));
                                }
                                t += 1;
                            }
                            proof {
                                assert(pend0.take(t as int) =~= pend0);
                                assert(batch@ =~= spec_pack(
                                    pre.stage_view(s),
                                    idsv.take(w + 1),
                                ).1);
                                assert(tagged_pending(batch_updates@) =~= spec_pack(
                                    pre.stage_view(s),
                                    idsv.take(w + 1),
                                ).2);
                                assert(self.stage_view(s) =~= spec_pack(
                                    pre.stage_view(s),
                                    idsv.take(w + 1),
                                ).0);
                            }
                        },
                        PipelinePayload::Batch(_, _) => {
                            proof {
                                assert(false);
                            }
                            return Err(PipelineError::StageTypeMismatch);
                        },
                    }
                },
            }
            w += 1;
        }
        proof {
            assert(idsv.take(n as int) =~= idsv);
        }
        let batch_id = self.id_counter + 1;
        let payload = PipelinePayload::Batch(batch, batch_updates);
        let ghost pval2 = payload;
        let ghost mid2 = *self;
        proof {
            mid2.lemma_stage_index_is(dj as int);
        }
        {
            let entry2 = vstd::std_specs::vec::vec_index_mut(&mut self.stages, dj);
            entry2.stage.payload.insert(batch_id, payload);
        }
        self.id_counter = batch_id;
        proof {
            Self::lemma_update_stage_entry(mid2, *self, dj as int);
            assert(self.stage_view(d) =~= mid2.stage_view(d).insert(batch_id, pval2@));
            assert(mid2.stage_view(d) =~= pre.stage_view(d));
            assert(pval2@ == PayloadV::Batch(
                spec_pack(pre.stage_view(s), idsv).1,
                spec_pack(pre.stage_view(s), idsv).2,
            ));
            assert(self.stage_view(s) =~= mid2.stage_view(s));
            assert forall|i2: int, k2: i64|
                0 <= i2 < self.stages@.len()
                    && #[trigger] self.stages@[i2].stage.payload@.contains_key(
            k2) implies payload_wf(self.stages@[i2].stage.payload@[k2]) && payload_kind(
                self.stages@[i2].stage.payload@[k2]) == self.stages@[i2].stage_type by {
                if i2 == dj as int {
                    if k2 != batch_id {
                        assert(mid2.stages@[i2].stage.payload@.contains_key(k2));
                        assert(self.stages@[i2].stage.payload@[k2]
                            == mid2.stages@[i2].stage.payload@[k2]);
                    } else {
                        assert(self.stages@[i2].stage.payload@[k2] == pval2);
                    }
                } else {
                    assert(self.stages@[i2] == mid2.stages@[i2]);
                }
            }
            Self::lemma_same_entries_same_views(pre, *self);
            assert forall|m: Seq<char>|
                pre.has_stage(m) implies #[trigger] self.stage_type_of(m) == pre.stage_type_of(
                m,
            ) by {
                let j = pre.stage_index(m);
                pre.lemma_stage_index_is(j);
                if j != si as int && j != dj as int {
                    assert(self.stages@[j] == pre.stages@[j]);
                }
            }
            assert forall|m: Seq<char>|
                pre.has_stage(m) && m != s && m != d implies #[trigger] self.stage_view(m)
                == pre.stage_view(m) by {
                let j = pre.stage_index(m);
                pre.lemma_stage_index_is(j);
                assert(j != si as int && j != dj as int);
                assert(self.stages@[j] == pre.stages@[j]);
                assert(self.stage_view(m) =~= pre.stage_view(m));
            }
        }
        Ok(batch_id)
    }

    /// Dissolves the batch under `batch_id` into independent frame
    /// payloads keyed by their original ids, and re-dispatches each
    /// tagged pending update onto the pending list of the frame its tag
    /// names. A tag naming no frame in the destination is an error, and
    /// then nothing moves.
    pub fn move_and_unpack_batch(
        &mut self,
        source_stage: &str,
        dest_stage: &str,
        batch_id: i64,
    ) -> (r: Result<(), PipelineError>)
        requires
            old(self).wf(),
        ensures
            final(self).wf(),
            final(self).id_counter == old(self).id_counter,
            match r {
                Ok(_) => {
                    &&& old(self).has_stage(source_stage@)
                    &&& old(self).has_stage(dest_stage@)
                    &&& old(self).stage_type_of(source_stage@)
                        == VideoPipelineStagePayloadType::Batch
                    &&& old(self).stage_type_of(dest_stage@)
                        == VideoPipelineStagePayloadType::Frame
                    &&& old(self).stage_view(source_stage@).contains_key(batch_id)
                    &&& old(self).stage_view(source_stage@)[batch_id] is Batch
                    &&& {
                        let bv = old(self).stage_view(source_stage@)[batch_id]->Batch_0;
                        let pend = old(self).stage_view(source_stage@)[batch_id]->Batch_1;
                        let dst1 = old(self).stage_view(dest_stage@).union_prefer_right(
                            frames_as_payloads(bv),
                        );
                        &&& spec_redispatch(dst1, pend).1
                        &&& final(self).stage_view(source_stage@) =~= old(self).stage_view(
                            source_stage@,
                        ).remove(batch_id)
                        &&& final(self).stage_view(dest_stage@) =~= spec_redispatch(
                            dst1,
                            pend,
                        ).0
                    }
                    &&& Self::stages_unchanged_except2(
                        *old(self),
                        *final(self),
                        source_stage@,
                        dest_stage@,
                    )
                },
                Err(e) => {
                    &&& *final(self) == *old(self)
                    &&& (e == PipelineError::StageTypeMismatch <==> old(self).stage_type_opt(
                        source_stage@,
                    ) == Some(VideoPipelineStagePayloadType::Frame) || old(self).stage_type_opt(
                        dest_stage@,
                    ) == Some(VideoPipelineStagePayloadType::Batch))
                    &&& (e == PipelineError::StageNotFound <==> e
                        != PipelineError::StageTypeMismatch && !(old(self).has_stage(
                        source_stage@,
                    ) && old(self).has_stage(dest_stage@)))
                    &&& (e == PipelineError::PayloadNotFound <==> e
                        != PipelineError::StageTypeMismatch && old(self).has_stage(source_stage@)
                        && old(self).has_stage(dest_stage@) && !old(self).stage_view(
                        source_stage@,
                    ).contains_key(batch_id))
                    &&& (e == PipelineError::FrameNotFound <==> e
                        != PipelineError::StageTypeMismatch && old(self).has_stage(source_stage@)
                        && old(self).has_stage(dest_stage@) && old(self).stage_view(
                        source_stage@,
                    ).contains_key(batch_id) && !spec_redispatch(
                        old(self).stage_view(dest_stage@).union_prefer_right(
                            frames_as_payloads(
                                old(self).stage_view(source_stage@)[batch_id]->Batch_0,
                            ),
                        ),
                        old(self).stage_view(source_stage@)[batch_id]->Batch_1,
                    ).1)
                    &&& (e == PipelineError::StageTypeMismatch || e == PipelineError::StageNotFound
                        || e == PipelineError::PayloadNotFound || e == PipelineError::FrameNotFound)
                },
            },
    {
        let si_opt = self.find_stage(source_stage);
        let dj_opt = self.find_stage(dest_stage);
        let src_bad = match si_opt {
            Some(i) => {
                proof {
                    self.lemma_stage_index_is(i as int);
                }
                match self.stages[i].stage_type {
                    VideoPipelineStagePayloadType::Frame => true,
                    VideoPipelineStagePayloadType::Batch => false,
                }
            },
            None => false,
        };
        let dst_bad = match dj_opt {
            Some(j) => {
                proof {
                    self.lemma_stage_index_is(j as int);
                }
                match self.stages[j].stage_type {
                    VideoPipelineStagePayloadType::Batch => true,
                    VideoPipelineStagePayloadType::Frame => false,
                }
            },
            None => false,
        };
        if src_bad || dst_bad {
            return Err(PipelineError::StageTypeMismatch);
        }
        let (si, dj) = match (si_opt, dj_opt) {
            (Some(si), Some(dj)) => (si, dj),
            _ => {
                return Err(PipelineError::StageNotFound);
            },
        };
        proof {
            self.lemma_stage_index_is(si as int);
            self.lemma_stage_index_is(dj as int);
            assert(si != dj);
            assert(source_stage@ != dest_stage@);
        }
        let ghost pre = *self;
        let ghost s = source_stage@;
        let ghost d = dest_stage@;
        let ghost bv: Map<i64, FrameView>;
        let ghost pend: Seq<(i64, UpdateView)>;
        let ghost dst1: Map<i64, PayloadV>;
        // precheck: every tag must name a frame of the batch or an
        // existing payload of the destination
        match self.stages[si].stage.payload.get(batch_id) {
            None => {
                return Err(PipelineError::PayloadNotFound);
            },
            Some(p) => match p {
                PipelinePayload::Batch(b, ups) => {
                    proof {
                        bv = b@;
                        pend = tagged_pending(ups@);
                        dst1 = pre.stage_view(d).union_prefer_right(frames_as_payloads(bv));
                        assert(pre.stage_view(s)[batch_id] == PayloadV::Batch(bv, pend));
                        assert forall|k: i64| #[trigger]
                            dst1.contains_key(k) implies dst1[k] is Frame by {
                            if !frames_as_payloads(bv).contains_key(k) {
                                assert(pre.stage_view(d).contains_key(k));
                                assert(payload_kind(
                                    pre.stages@[dj as int].stage.payload@[k],
                                ) == VideoPipelineStagePayloadType::Frame);
                            }
                        }
                        lemma_redispatch_domain(dst1, pend);
                    }
                    let nu = ups.len();
                    let mut q: usize = 0;
                    while q < nu
                        invariant
                            self.wf(),
                            *self == pre,
                            pre == *old(self),
                            nu == ups@.len(),
                            q <= nu,
                            pend == tagged_pending(ups@),
                            si < self.stages@.len(),
                            dj < self.stages@.len(),
                            si != dj,
                            s == source_stage@,
                            d == dest_stage@,
                            self.stages@[si as int].name@ == s,
                            self.stages@[dj as int].name@ == d,
                            self.stages@[si as int].stage_type
                                == VideoPipelineStagePayloadType::Batch,
                            self.stages@[dj as int].stage_type
                                == VideoPipelineStagePayloadType::Frame,
                            pre.stage_view(s).contains_key(batch_id),
                            pre.stage_view(s)[batch_id] == PayloadV::Batch(bv, pend),
                            b.wf(),
                            bv == b@,
                            dst1 == pre.stage_view(d).union_prefer_right(
                                frames_as_payloads(bv),
                            ),
                            forall|k: i64| #[trigger] dst1.contains_key(k) ==> dst1[k] is Frame,
                            forall|p2: int|
                                0 <= p2 < q ==> dst1.contains_key((#[trigger] pend[p2]).0),
                        decreases nu - q,
                    {
                        let fid = ups[q].0;
                        let in_batch = match b.get(fid) {
                            Some(_) => true,
                            None => false,
                        };
                        proof {
                            self.lemma_stage_index_is(dj as int);
                        }
                        let in_dst = self.stages[dj].stage.payload.contains(fid);
                        if !in_batch && !in_dst {
                            proof {
                                pre.lemma_stage_index_is(si as int);
                                pre.lemma_stage_index_is(dj as int);
                                assert(pend[q as int].0 == fid);
                                assert(!dst1.contains_key(fid));
                                assert(0 <= q < pend.len());
                                lemma_redispatch_domain(dst1, pend);
                                assert(exists|q2: int|
                                    0 <= q2 < pend.len() && !dst1.contains_key(
                                        (#[trigger] pend[q2]).0,
                                    )) by {
                                    assert(!dst1.contains_key((pend[q as int]).0));
                                }
                                assert(!spec_redispatch(dst1, pend).1);
                            }
                            return Err(PipelineError::FrameNotFound);
                        }
                        proof {
                            assert(dst1.contains_key((pend[q as int]).0));
                        }
                        q += 1;
                    }
                    proof {
                        lemma_redispatch_domain(dst1, pend);
                        assert(spec_redispatch(dst1, pend).1);
                    }
                },
                PipelinePayload::Frame(_, _) => {
                    proof {
                        assert(false);
                    }
                    return Err(PipelineError::PayloadKindMismatch);
                },
            },
        }
        // take the batch payload out of the source stage
        let removed = {
            let entry = vstd::std_specs::vec::vec_index_mut(&mut self.stages, si);
            entry.stage.payload.remove(batch_id)
        };
        proof {
            Self::lemma_update_stage_entry(pre, *self, si as int);
            assert(self.stage_view(s) =~= pre.stage_view(s).remove(batch_id));
            assert forall|i2: int, k2: i64|
                0 <= i2 < self.stages@.len()
                    && #[trigger] self.stages@[i2].stage.payload@.contains_key(
            k2) implies payload_wf(self.stages@[i2].stage.payload@[k2]) && payload_kind(
                self.stages@[i2].stage.payload@[k2]) == self.stages@[i2].stage_type by {
                if i2 == si as int {
                    assert(pre.stages@[i2].stage.payload@.contains_key(k2));
                    assert(self.stages@[i2].stage.payload@[k2]
                        == pre.stages@[i2].stage.payload@[k2]);
                } else {
                    assert(self.stages@[i2] == pre.stages@[i2]);
                }
            }
            assert(self.wf());
        }
        match removed {
            Some(PipelinePayload::Batch(mut b, mut ups)) => {
                proof {
                    assert(b@ == bv);
                    assert(tagged_pending(ups@) == pend);
                    assert(payload_wf(PipelinePayload::Batch(b, ups)));
                }
                // spread the frames into the destination as independent
                // frame payloads with empty pending lists
                while b.frames.len() > 0
                    invariant
                        self.wf(),
                        self.id_counter == pre.id_counter,
                        self.stages@.len() == pre.stages@.len(),
                        si < pre.stages@.len(),
                        dj < pre.stages@.len(),
                        si != dj,
                        pre.wf(),
                        s != d,
                        pre.stages@[si as int].name@ == s,
                        pre.stages@[dj as int].name@ == d,
                        pre.stages@[dj as int].stage_type
                            == VideoPipelineStagePayloadType::Frame,
                        self.stages@[si as int].name@ == s,
                        self.stages@[dj as int].name@ == d,
                        self.stages@[si as int].stage_type == pre.stages@[si as int].stage_type,
                        self.stages@[dj as int].stage_type == pre.stages@[dj as int].stage_type,
                        forall|j: int|
                            0 <= j < pre.stages@.len() && j != si && j != dj
                                ==> #[trigger] self.stages@[j] == pre.stages@[j],
                        self.stage_view(s) =~= pre.stage_view(s).remove(batch_id),
                        b.wf(),
                        forall|k: i64| #[trigger]
                            b@.contains_key(k) ==> bv.contains_key(k) && b@[k] == bv[k],
                        self.stage_view(d) =~= pre.stage_view(d).union_prefer_right(
                            Map::new(
                                |k: i64| bv.contains_key(k) && !b@.contains_key(k),
                                |k: i64| PayloadV::Frame(bv[k], Seq::empty()),
                            ),
                        ),
                    decreases b.frames.seq().len(),
                {
                    let ghost prev_bmap = b@;
                    let fid = b.frames.key_at(0);
                    let fr_opt = b.frames.remove(fid);
                    let ghost mid1 = *self;
                    proof {
                        mid1.lemma_stage_index_is(dj as int);
                        assert(b@ =~= prev_bmap.remove(fid));
                    }
                    match fr_opt {
                        Some(fr) => {
                            let ghost frv = fr@;
                            proof {
                                assert(prev_bmap.contains_key(fid));
                                assert(frv == prev_bmap[fid]);
                                assert(frv == bv[fid]);
                                assert(bv.contains_key(fid));
                            }
                            let payload = PipelinePayload::Frame(fr, Vec::new());
                            let ghost pval = payload;
                            {
                                let entry2 = vstd::std_specs::vec::vec_index_mut(
                                    &mut self.stages,
                                    dj,
                                );
                                entry2.stage.payload.insert(fid, payload);
                            }
                            proof {
                                Self::lemma_update_stage_entry(mid1, *self, dj as int);
                                assert(pval@->Frame_1 =~= Seq::<UpdateView>::empty());
                                assert(pval@ == PayloadV::Frame(frv, Seq::empty()));
                                assert(self.stage_view(d) =~= mid1.stage_view(d).insert(
                                    fid,
                                    pval@,
                                ));
                                assert(self.stage_view(d) =~= pre.stage_view(
                                    d,
                                ).union_prefer_right(
                                    Map::new(
                                        |k: i64| bv.contains_key(k) && !b@.contains_key(k),
                                        |k: i64| PayloadV::Frame(bv[k], Seq::empty()),
                                    ),
                                ));
                                assert(self.stage_view(s) =~= mid1.stage_view(s));
                                assert forall|i2: int, k2: i64|
                                    0 <= i2 < self.stages@.len()
                                        && #[trigger] self.stages@[i2].stage.payload@.contains_key(
                                k2) implies payload_wf(self.stages@[i2].stage.payload@[k2])
                                    && payload_kind(self.stages@[i2].stage.payload@[k2])
                                    == self.stages@[i2].stage_type by {
                                    if i2 == dj as int {
                                        if k2 != fid {
                                            assert(mid1.stages@[i2].stage.payload@.contains_key(
                                                k2,
                                            ));
                                            assert(self.stages@[i2].stage.payload@[k2]
                                                == mid1.stages@[i2].stage.payload@[k2]);
                                        } else {
                                            assert(self.stages@[i2].stage.payload@[k2] == pval);
                                        }
                                    } else {
                                        assert(self.stages@[i2] == mid1.stages@[i2]);
                                    }
                                }
                            }
                        },
                        None => {
                            proof {
                                assert(false);
                            }
                        },
                    }
                }
                proof {
                    assert forall|k: i64|
                        (bv.contains_key(k) && !b@.contains_key(k)) == bv.contains_key(k) by {
                        if b@.contains_key(k) {
                            assert(b.frames.seq().len() == 0);
                            assert(!b.frames.spec_contains(k));
                        }
                    }
                    assert(Map::new(
                        |k: i64| bv.contains_key(k) && !b@.contains_key(k),
                        |k: i64| PayloadV::Frame(bv[k], Seq::empty()),
                    ) =~= frames_as_payloads(bv));
                    assert(self.stage_view(d) =~= dst1);
                    lemma_redispatch_domain(dst1, pend);
                }
                // re-dispatch the tagged pending updates
                let nu2 = ups.len();
                let mut t: usize = 0;
                while ups.len() > 0
                    invariant
                        self.wf(),
                        self.id_counter == pre.id_counter,
                        self.stages@.len() == pre.stages@.len(),
                        si < pre.stages@.len(),
                        dj < pre.stages@.len(),
                        si != dj,
                        pre.wf(),
                        s != d,
                        pre.stages@[si as int].name@ == s,
                        pre.stages@[dj as int].name@ == d,
                        self.stages@[si as int].name@ == s,
                        self.stages@[dj as int].name@ == d,
                        self.stages@[si as int].stage_type == pre.stages@[si as int].stage_type,
                        self.stages@[dj as int].stage_type == pre.stages@[dj as int].stage_type,
                        forall|j: int|
                            0 <= j < pre.stages@.len() && j != si && j != dj
                                ==> #[trigger] self.stages@[j] == pre.stages@[j],
                        self.stage_view(s) =~= pre.stage_view(s).remove(batch_id),
                        t + ups@.len() == nu2,
                        nu2 == pend.len(),
                        t <= nu2,
                        tagged_pending(ups@) =~= pend.skip(t as int),
                        spec_redispatch(dst1, pend).1,
                        forall|k: i64| #[trigger] dst1.contains_key(k) ==> dst1[k] is Frame,
                        (self.stage_view(d), true) == spec_redispatch(dst1, pend.take(t as int)),
                        forall|q2: int| 0 <= q2 < ups@.len() ==> (#[trigger] ups@[q2]).1.wf(),
                    decreases ups@.len(),
                {
                    let ghost prev_vec = ups@;
                    let pair = ups.remove(0);
                    let fid = pair.0;
                    let u = pair.1;
                    let ghost mid2 = *self;
                    proof {
                        assert(pair == prev_vec[0]);
                        assert(tagged_pending(prev_vec)[0] == (prev_vec[0].0, prev_vec[0].1@));
                        assert(pend.skip(t as int)[0] == pend[t as int]);
                        assert((fid, u@) == pend[t as int]);
                        assert forall|q: int|
                            0 <= q < ups@.len() implies #[trigger] tagged_pending(ups@)[q]
                            == pend[t + 1 + q] by {
                            assert(ups@[q] == prev_vec.subrange(1, prev_vec.len() as int)[q]);
                            assert(ups@[q] == prev_vec[q + 1]);
                            assert(tagged_pending(prev_vec)[q + 1] == (
                                prev_vec[q + 1].0,
                                prev_vec[q + 1].1@,
                            ));
                            assert(tagged_pending(prev_vec)[q + 1] == pend.skip(t as int)[q + 1]);
                        }
                        assert(tagged_pending(ups@) =~= pend.skip(t + 1));
                        mid2.lemma_stage_index_is(dj as int);
                        assert(pend.take(t + 1).drop_last() =~= pend.take(t as int));
                        assert(pend.take(t + 1).last() == pend[t as int]);
                        lemma_redispatch_domain(dst1, pend);
                        lemma_redispatch_domain(dst1, pend.take(t as int));
                        assert(dst1.contains_key(fid));
                        assert(mid2.stage_view(d).contains_key(fid));
                        assert(mid2.stage_view(d)[fid] is Frame);
                    }
                    let removed2 = {
                        let entry3 = vstd::std_specs::vec::vec_index_mut(&mut self.stages, dj);
                        entry3.stage.payload.remove(fid)
                    };
                    proof {
                        Self::lemma_update_stage_entry(mid2, *self, dj as int);
                        assert(self.stage_view(d) =~= mid2.stage_view(d).remove(fid));
                    }
                    match removed2 {
                        Some(PipelinePayload::Frame(f2, mut pend2)) => {
                            let ghost pend2v = pend2.deep_view();
                            let ghost f2v = f2@;
                            let ghost mid3 = *self;
                            proof {
                                assert(PayloadV::Frame(f2v, pend2v) == mid2.stage_view(d)[fid]);
                                assert(payload_wf(mid2.stages@[dj as int].stage.payload@[fid]));
                                mid3.lemma_stage_index_is(dj as int);
                            }
                            pend2.push(u);
                            let payload2 = PipelinePayload::Frame(f2, pend2);
                            let ghost pval2 = payload2;
                            {
                                let entry4 = vstd::std_specs::vec::vec_index_mut(
                                    &mut self.stages,
                                    dj,
                                );
                                entry4.stage.payload.insert(fid, payload2);
                            }
                            proof {
                                Self::lemma_update_stage_entry(mid3, *self, dj as int);
                                assert(pval2@->Frame_1 =~= pend2v.push(u@));
                                assert(pval2@ == PayloadV::Frame(f2v, pend2v.push(u@)));
                                assert(self.stage_view(d) =~= mid3.stage_view(d).insert(
                                    fid,
                                    pval2@,
                                ));
                                assert(self.stage_view(d) =~= mid2.stage_view(d).insert(
                                    fid,
                                    pval2@,
                                ));
                                assert(spec_redispatch(dst1, pend.take(t + 1)) == (
                                    mid2.stage_view(d).insert(
                                        fid,
                                        PayloadV::Frame(f2v, pend2v.push(u@)),
                                    ),
                                    true,
                                ));
                                assert((self.stage_view(d), true) == spec_redispatch(
                                    dst1,
                                    pend.take(t + 1),
                                ));
                                assert(self.stage_view(s) =~= mid2.stage_view(s));
                                assert forall|i2: int, k2: i64|
                                    0 <= i2 < self.stages@.len()
                                        && #[trigger] self.stages@[i2].stage.payload@.contains_key(
                                k2) implies payload_wf(self.stages@[i2].stage.payload@[k2])
                                    && payload_kind(self.stages@[i2].stage.payload@[k2])
                                    == self.stages@[i2].stage_type by {
                                    if i2 == dj as int {
                                        if k2 != fid {
                                            assert(mid3.stages@[i2].stage.payload@.contains_key(
                                                k2,
                                            ));
                                            assert(self.stages@[i2].stage.payload@[k2]
                                                == mid3.stages@[i2].stage.payload@[k2]);
                                        } else {
                                            assert(self.stages@[i2].stage.payload@[k2] == pval2);
                                            assert forall|q3: int|
                                                0 <= q3 < pval2->Frame_1@.len() implies (
                                            #[trigger] pval2->Frame_1@[q3]).wf() by {
                                                let oldp =
                                                    mid2.stages@[dj as int].stage.payload@[fid];
                                                if q3 < pend2v.len() {
                                                    assert(oldp->Frame_1@[q3].wf());
                                                }
                                            }
                                        }
                                    } else {
                                        assert(self.stages@[i2] == mid3.stages@[i2]);
                                    }
                                }
                            }
                        },
                        _ => {
                            proof {
                                assert(false);
                            }
                        },
                    }
                    t += 1;
                }
                proof {
                    assert(pend.take(t as int) =~= pend);
                    Self::lemma_same_entries_same_views(pre, *self);
                    assert forall|m: Seq<char>|
                        pre.has_stage(m) implies #[trigger] self.stage_type_of(m)
                        == pre.stage_type_of(m) by {
                        let j = pre.stage_index(m);
                        pre.lemma_stage_index_is(j);
                        if j != si as int && j != dj as int {
                            assert(self.stages@[j] == pre.stages@[j]);
                        }
                    }
                    assert forall|m: Seq<char>|
                        pre.has_stage(m) && m != s && m != d implies #[trigger] self.stage_view(m)
                        == pre.stage_view(m) by {
                        let j = pre.stage_index(m);
                        pre.lemma_stage_index_is(j);
                        assert(j != si as int && j != dj as int);
                        assert(self.stages@[j] == pre.stages@[j]);
                        assert(self.stage_view(m) =~= pre.stage_view(m));
                    }
                }
                Ok(())
            },
            _ => {
                proof {
                    assert(false);
                }
                Err(PipelineError::PayloadNotFound)
            },
        }
    }
}

} // verus!
