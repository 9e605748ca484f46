use vstd::prelude::*;

use crate::attribute::{Attribute, AttributeView};
use crate::attrset::{key_of, AttributeSet};
use crate::bbox::BBox;
use crate::errors::FrameError;
use crate::float_value::FloatValue;

verus! {

/// An entity detected on a frame: identity, classification, geometry,
/// optional track, optional parent link, and its own attribute table.
/// The parent is held as an id and resolved through the owning frame.
#[derive(Debug)]
pub struct VideoObject {
    pub id: i64,
    pub namespace: String,
    pub label: String,
    pub detection_box: BBox,
    pub confidence: Option<FloatValue>,
    pub track_id: Option<i64>,
    pub track_box: Option<BBox>,
    pub parent_id: Option<i64>,
    pub attributes: AttributeSet,
}

#[verifier::ext_equal]
pub ghost struct ObjectView {
    pub id: i64,
    pub namespace: Seq<char>,
    pub label: Seq<char>,
    pub detection_box: BBox,
    pub confidence: Option<FloatValue>,
    pub track_id: Option<i64>,
    pub track_box: Option<BBox>,
    pub parent_id: Option<i64>,
    pub attributes: Map<(Seq<char>, Seq<char>), AttributeView>,
}

impl View for VideoObject {
    type V = ObjectView;

    open spec fn view(&self) -> ObjectView {
        ObjectView {
            id: self.id,
            namespace: self.namespace@,
            label: self.label@,
            detection_box: self.detection_box,
            confidence: self.confidence,
            track_id: self.track_id,
            track_box: self.track_box,
            parent_id: self.parent_id,
            attributes: self.attributes@,
        }
    }
}

impl DeepView for VideoObject {
    type V = ObjectView;

    open spec fn deep_view(&self) -> ObjectView {
        self.view()
    }
}

impl VideoObject {
    /// The attribute table has no duplicate keys, and a track box stands
    /// exactly where a track id stands.
    pub open spec fn wf(&self) -> bool {
        &&& self.attributes.wf()
        &&& (self.track_id is Some <==> self.track_box is Some)
    }

    /// Builds an object; refuses a track id without a track box and a
    /// track box without a track id.
    pub fn new(
        id: i64,
        namespace: String,
        label: String,
        detection_box: BBox,
        confidence: Option<FloatValue>,
        track_id: Option<i64>,
        track_box: Option<BBox>,
    ) -> (r: Result<VideoObject, FrameError>)
        ensures
            match r {
                Ok(o) => {
                    &&& o.wf()
                    &&& o@ == (ObjectView {
                        id,
                        namespace: namespace@,
                        label: label@,
                        detection_box,
                        confidence,
                        track_id,
                        track_box,
                        parent_id: None,
                        attributes: Map::empty(),
                    })
                    &&& (track_id is Some <==> track_box is Some)
                },
                Err(e) => {
                    &&& e == FrameError::TrackInfoMismatch
                    &&& !(track_id is Some <==> track_box is Some)
                },
            },
    {
        let consistent = match (&track_id, &track_box) {
            (Some(_), Some(_)) => true,
            (None, None) => true,
            _ => false,
        };
        if !consistent {
            return Err(FrameError::TrackInfoMismatch);
        }
        let o = VideoObject {
            id,
            namespace,
            label,
            detection_box,
            confidence,
            track_id,
            track_box,
            parent_id: None,
            attributes: AttributeSet::new(),
        };
        proof {
            assert(o@.attributes =~= Map::<(Seq<char>, Seq<char>), AttributeView>::empty());
        }
        Ok(o)
    }

    pub fn get_id(&self) -> (r: i64)
        ensures
            r == self.id,
    {
        self.id
    }

    pub fn get_namespace(&self) -> (r: &String)
        ensures
            r@ == self@.namespace,
    {
        &self.namespace
    }

    /// The namespace under its historical name.
    pub fn get_creator(&self) -> (r: &String)
        ensures
            r@ == self@.namespace,
    {
        &self.namespace
    }

    pub fn get_label(&self) -> (r: &String)
        ensures
            r@ == self@.label,
    {
        &self.label
    }

    pub fn set_label(&mut self, label: String)
        ensures
            *final(self) == (VideoObject { label, ..*old(self) }),
    {
        self.label = label;
    }

    pub fn get_confidence(&self) -> (r: Option<FloatValue>)
        ensures
            r == self.confidence,
    {
        self.confidence
    }

    pub fn get_detection_box(&self) -> (r: BBox)
        ensures
            r == self.detection_box,
    {
        self.detection_box
    }

    /// Replaces the detection box.
    pub fn set_bbox(&mut self, detection_box: BBox)
        ensures
            *final(self) == (VideoObject { detection_box, ..*old(self) }),
    {
        self.detection_box = detection_box;
    }

    pub fn get_track_id(&self) -> (r: Option<i64>)
        ensures
            r == self.track_id,
    {
        self.track_id
    }

    pub fn get_track_box(&self) -> (r: Option<BBox>)
        ensures
            r == self.track_box,
    {
        self.track_box
    }

    /// Sets or clears track id and box together, keeping them consistent.
    pub fn set_track_info(&mut self, track_id: Option<i64>, track_box: Option<BBox>) -> (r: Result<
        (),
        FrameError,
    >)
        ensures
            match r {
                Ok(_) => {
                    &&& *final(self) == (VideoObject { track_id, track_box, ..*old(self) })
                    &&& (track_id is Some <==> track_box is Some)
                },
                Err(e) => {
                    &&& e == FrameError::TrackInfoMismatch
                    &&& !(track_id is Some <==> track_box is Some)
                    &&& *final(self) == *old(self)
                },
            },
    {
        let consistent = match (&track_id, &track_box) {
            (Some(_), Some(_)) => true,
            (None, None) => true,
            _ => false,
        };
        if !consistent {
            return Err(FrameError::TrackInfoMismatch);
        }
        self.track_id = track_id;
        self.track_box = track_box;
        Ok(())
    }

    pub fn get_parent_id(&self) -> (r: Option<i64>)
        ensures
            r == self.parent_id,
    {
        self.parent_id
    }

    /// Stores the parent id without validation; the owning frame's
    /// `set_parent_by_id` is the validated path.
    pub fn set_parent(&mut self, parent_id: Option<i64>)
        ensures
            *final(self) == (VideoObject { parent_id, ..*old(self) }),
    {
        self.parent_id = parent_id;
    }

    pub fn set_attribute(&mut self, attribute: Attribute) -> (r: Option<Attribute>)
        requires
            old(self).wf(),
        ensures
            final(self).wf(),
            final(self)@.attributes =~= old(self)@.attributes.insert(
                key_of(attribute@),
                attribute@,
            ),
            *final(self) == (VideoObject { attributes: final(self).attributes, ..*old(self) }),
            match r {
                Some(b) => old(self)@.attributes.contains_key(key_of(attribute@)) && b@ == old(
                    self,
                )@.attributes.index(key_of(attribute@)),
                None => !old(self)@.attributes.contains_key(key_of(attribute@)),
            },
    {
        self.attributes.set(attribute)
    }

    pub fn get_attribute(&self, namespace: &str, name: &str) -> (r: Option<&Attribute>)
        requires
            self.wf(),
        ensures
            match r {
                Some(a) => self@.attributes.contains_key((namespace@, name@)) && a@
                    == self@.attributes.index((namespace@, name@)),
                None => !self@.attributes.contains_key((namespace@, name@)),
            },
    {
        self.attributes.get(namespace, name)
    }

    /// A copy that stands alone: same data, no parent link.
    pub fn detached_copy(&self) -> (r: VideoObject)
        requires
            self.wf(),
        ensures
            r.wf(),
            r@ == (ObjectView { parent_id: None, ..self@ }),
    {
        let mut r = self.clone();
        r.parent_id = None;
        r
    }
}

impl Clone for VideoObject {
    fn clone(&self) -> (r: Self)
        ensures
            self.wf() ==> r.wf() && r@ == self@,
            r.id == self.id,
    {
        let r = VideoObject {
            id: self.id,
            namespace: self.namespace.clone(),
            label: self.label.clone(),
            detection_box: self.detection_box,
            confidence: self.confidence,
            track_id: self.track_id,
            track_box: self.track_box,
            parent_id: self.parent_id,
            attributes: self.attributes.clone(),
        };
        proof {
            if self.wf() {
                assert(r@ =~= self@);
            }
        }
        r
    }
}

} // verus!
