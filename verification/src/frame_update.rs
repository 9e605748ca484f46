use vstd::prelude::*;

use crate::attribute::{Attribute, AttributeView};
use crate::attrset::key_of;
use crate::object::{ObjectView, VideoObject};

verus! {

/// What to do when an update carries an object whose id the frame
/// already owns.
#[derive(Clone, Copy, Debug, PartialEq, Eq, Structural)]
pub enum IdCollisionResolutionPolicy {
    /// Refuse the update.
    Error,
    /// Replace the owned object.
    Overwrite,
}

/// A deferred mutation of a frame: attributes to file and objects to
/// add, applied only on an explicit `apply_updates`.
#[derive(Debug)]
pub struct VideoFrameUpdate {
    pub attributes: Vec<Attribute>,
    pub objects: Vec<VideoObject>,
    pub object_collision_policy: IdCollisionResolutionPolicy,
}

#[verifier::ext_equal]
pub ghost struct UpdateView {
    pub attributes: Seq<AttributeView>,
    pub objects: Seq<ObjectView>,
    pub object_collision_policy: IdCollisionResolutionPolicy,
}

impl View for VideoFrameUpdate {
    type V = UpdateView;

    open spec fn view(&self) -> UpdateView {
        UpdateView {
            attributes: self.attributes.deep_view(),
            objects: self.objects.deep_view(),
            object_collision_policy: self.object_collision_policy,
        }
    }
}

impl DeepView for VideoFrameUpdate {
    type V = UpdateView;

    open spec fn deep_view(&self) -> UpdateView {
        self.view()
    }
}

/// The attribute table after filing each attribute of `attrs` in turn;
/// a later attribute with the same key wins.
pub open spec fn spec_apply_attrs(
    m: Map<(Seq<char>, Seq<char>), AttributeView>,
    attrs: Seq<AttributeView>,
) -> Map<(Seq<char>, Seq<char>), AttributeView>
    decreases attrs.len(),
{
    if attrs.len() == 0 {
        m
    } else {
        spec_apply_attrs(m, attrs.drop_last()).insert(key_of(attrs.last()), attrs.last())
    }
}

/// The object table after adding each object of `objs` in turn, and
/// whether every addition was accepted. Under the `Error` policy the
/// first collision stops the walk; what was added before it stays.
pub open spec fn spec_apply_objects(
    m: Map<i64, ObjectView>,
    objs: Seq<ObjectView>,
    policy: IdCollisionResolutionPolicy,
) -> (Map<i64, ObjectView>, bool)
    decreases objs.len(),
{
    if objs.len() == 0 {
        (m, true)
    } else {
        let prev = spec_apply_objects(m, objs.drop_last(), policy);
        if !prev.1 {
            prev
        } else if prev.0.contains_key(objs.last().id) && policy is Error {
            (prev.0, false)
        } else {
            (prev.0.insert(objs.last().id, objs.last()), true)
        }
    }
}

impl VideoFrameUpdate {
    /// Every carried object is itself well-formed.
    pub open spec fn wf(&self) -> bool {
        forall|i: int| 0 <= i < self.objects@.len() ==> (#[trigger] self.objects@[i]).wf()
    }

    pub fn new() -> (r: VideoFrameUpdate)
        ensures
            r.wf(),
            r@.attributes == Seq::<AttributeView>::empty(),
            r@.objects == Seq::<ObjectView>::empty(),
            r@.object_collision_policy == IdCollisionResolutionPolicy::Error,
    {
        let r = VideoFrameUpdate {
            attributes: Vec::new(),
            objects: Vec::new(),
            object_collision_policy: IdCollisionResolutionPolicy::Error,
        };
        proof {
            assert(r@.attributes =~= Seq::<AttributeView>::empty());
            assert(r@.objects =~= Seq::<ObjectView>::empty());
        }
        r
    }

    pub fn add_attribute(&mut self, attribute: &Attribute)
        requires
            old(self).wf(),
        ensures
            final(self).wf(),
            final(self)@.attributes =~= old(self)@.attributes.push(attribute@),
            final(self)@.objects == old(self)@.objects,
            final(self)@.object_collision_policy == old(self)@.object_collision_policy,
    {
        self.attributes.push(attribute.clone());
        proof {
            assert(final(self)@.attributes =~= old(self)@.attributes.push(attribute@));
            assert(final(self)@.objects =~= old(self)@.objects);
        }
    }

    pub fn add_object(&mut self, object: &VideoObject)
        requires
            old(self).wf(),
            object.wf(),
        ensures
            final(self).wf(),
            final(self)@.objects =~= old(self)@.objects.push(object@),
            final(self)@.attributes == old(self)@.attributes,
            final(self)@.object_collision_policy == old(self)@.object_collision_policy,
    {
        self.objects.push(object.clone());
        proof {
            assert(final(self)@.objects =~= old(self)@.objects.push(object@));
            assert(final(self)@.attributes =~= old(self)@.attributes);
        }
    }

    pub fn set_object_collision_policy(&mut self, policy: IdCollisionResolutionPolicy)
        ensures
            *final(self) == (VideoFrameUpdate { object_collision_policy: policy, ..*old(self) }),
    {
        self.object_collision_policy = policy;
    }
}

} // verus!
