use vstd::prelude::*;

use crate::attribute::{Attribute, AttributeValue, AttributeView};
use crate::attrset::{key_of, pair_keys_view, spec_keys_where_hint, spec_keys_where_name,
    spec_keys_where_ns, AttributeSet};
use crate::strutil::spec_contains_str;
use crate::content::{ContentView, VideoFrameContent, VideoFrameTranscodingMethod,
    VideoFrameTransformation};
use crate::errors::FrameError;
use crate::frame_update::{spec_apply_attrs, spec_apply_objects, IdCollisionResolutionPolicy,
    UpdateView, VideoFrameUpdate};
use crate::idmap::IdMap;
use crate::object::{ObjectView, VideoObject};

verus! {

/// A video frame: stream metadata, timing, pixel-data reference, geometry
/// history, an attribute table, and the objects it exclusively owns.
#[derive(Debug)]
pub struct VideoFrame {
    pub source_id: String,
    pub framerate: String,
    pub width: i64,
    pub height: i64,
    pub content: VideoFrameContent,
    pub transcoding_method: VideoFrameTranscodingMethod,
    pub codec: Option<String>,
    pub keyframe: Option<bool>,
    pub time_base: (i32, i32),
    pub pts: i64,
    pub dts: Option<i64>,
    pub duration: Option<i64>,
    pub uuid: u128,
    pub creation_timestamp_ns: u128,
    pub previous_frame_seq_id: Option<i64>,
    pub transformations: Vec<VideoFrameTransformation>,
    pub attributes: AttributeSet,
    pub objects: IdMap<VideoObject>,
}

#[verifier::ext_equal]
pub ghost struct FrameView {
    pub source_id: Seq<char>,
    pub framerate: Seq<char>,
    pub width: i64,
    pub height: i64,
    pub content: ContentView,
    pub transcoding_method: VideoFrameTranscodingMethod,
    pub codec: Option<Seq<char>>,
    pub keyframe: Option<bool>,
    pub time_base: (i32, i32),
    pub pts: i64,
    pub dts: Option<i64>,
    pub duration: Option<i64>,
    pub uuid: u128,
    pub creation_timestamp_ns: u128,
    pub previous_frame_seq_id: Option<i64>,
    pub transformations: Seq<VideoFrameTransformation>,
    pub attributes: Map<(Seq<char>, Seq<char>), AttributeView>,
    pub objects: Map<i64, ObjectView>,
}

impl View for VideoFrame {
    type V = FrameView;

    open spec fn view(&self) -> FrameView {
        FrameView {
            source_id: self.source_id@,
            framerate: self.framerate@,
            width: self.width,
            height: self.height,
            content: self.content@,
            transcoding_method: self.transcoding_method,
            codec: match self.codec {
                Some(c) => Some(c@),
                None => None,
            },
            keyframe: self.keyframe,
            time_base: self.time_base,
            pts: self.pts,
            dts: self.dts,
            duration: self.duration,
            uuid: self.uuid,
            creation_timestamp_ns: self.creation_timestamp_ns,
            previous_frame_seq_id: self.previous_frame_seq_id,
            transformations: self.transformations@,
            attributes: self.attributes@,
            objects: self.objects@.map_values(|o: VideoObject| o@),
        }
    }
}

impl VideoFrame {
    /// The attribute table and the object table are well-keyed, and every
    /// owned object is well-formed and filed under its own id.
    pub open spec fn wf(&self) -> bool {
        &&& self.attributes.wf()
        &&& self.objects.wf()
        &&& forall|k: i64| #[trigger]
            self.objects@.contains_key(k) ==> self.objects@[k].id == k && self.objects@[k].wf()
    }

    pub fn new(
        source_id: &str,
        framerate: &str,
        width: i64,
        height: i64,
        content: VideoFrameContent,
        transcoding_method: VideoFrameTranscodingMethod,
        codec: Option<String>,
        keyframe: Option<bool>,
        time_base: (i32, i32),
        pts: i64,
        dts: Option<i64>,
        duration: Option<i64>,
    ) -> (r: VideoFrame)
        ensures
            r.wf(),
            r@.source_id == source_id@,
            r@.framerate == framerate@,
            r.width == width,
            r.height == height,
            r.content == content,
            r.transcoding_method == transcoding_method,
            r.codec == codec,
            r.keyframe == keyframe,
            r.time_base == time_base,
            r.pts == pts,
            r.dts == dts,
            r.duration == duration,
            r.uuid == 0,
            r.creation_timestamp_ns == 0,
            r.previous_frame_seq_id is None,
            r@.transformations == Seq::<VideoFrameTransformation>::empty(),
            r@.attributes =~= Map::<(Seq<char>, Seq<char>), AttributeView>::empty(),
            r@.objects =~= Map::<i64, ObjectView>::empty(),
    {
        let r = VideoFrame {
            source_id: source_id.to_owned(),
            framerate: framerate.to_owned(),
            width,
            height,
            content,
            transcoding_method,
            codec,
            keyframe,
            time_base,
            pts,
            dts,
            duration,
            uuid: 0,
            creation_timestamp_ns: 0,
            previous_frame_seq_id: None,
            transformations: Vec::new(),
            attributes: AttributeSet::new(),
            objects: IdMap::new(),
        };
        proof {
            assert(r@.transformations =~= Seq::<VideoFrameTransformation>::empty());
        }
        r
    }

    // --- stream metadata ---

    pub fn get_source_id(&self) -> (r: String)
        ensures
            r@ == self@.source_id,
    {
        self.source_id.clone()
    }

    pub fn set_source_id(&mut self, source_id: &str)
        ensures
            *final(self) == (VideoFrame { source_id: final(self).source_id, ..*old(self) }),
            final(self)@.source_id == source_id@,
    {
        self.source_id = source_id.to_owned();
    }

    pub fn get_framerate(&self) -> (r: String)
        ensures
            r@ == self@.framerate,
    {
        self.framerate.clone()
    }

    pub fn set_framerate(&mut self, framerate: &str)
        ensures
            *final(self) == (VideoFrame { framerate: final(self).framerate, ..*old(self) }),
            final(self)@.framerate == framerate@,
    {
        self.framerate = framerate.to_owned();
    }

    pub fn get_width(&self) -> (r: i64)
        ensures
            r == self.width,
    {
        self.width
    }

    pub fn set_width(&mut self, width: i64)
        ensures
            *final(self) == (VideoFrame { width, ..*old(self) }),
    {
        self.width = width;
    }

    pub fn get_height(&self) -> (r: i64)
        ensures
            r == self.height,
    {
        self.height
    }

    pub fn set_height(&mut self, height: i64)
        ensures
            *final(self) == (VideoFrame { height, ..*old(self) }),
    {
        self.height = height;
    }

    pub fn get_previous_frame_seq_id(&self) -> (r: Option<i64>)
        ensures
            r == self.previous_frame_seq_id,
    {
        self.previous_frame_seq_id
    }

    // --- timing ---

    pub fn get_time_base(&self) -> (r: (i32, i32))
        ensures
            r == self.time_base,
    {
        self.time_base
    }

    pub fn set_time_base(&mut self, time_base: (i32, i32))
        ensures
            *final(self) == (VideoFrame { time_base, ..*old(self) }),
    {
        self.time_base = time_base;
    }

    pub fn get_pts(&self) -> (r: i64)
        ensures
            r == self.pts,
    {
        self.pts
    }

    pub fn set_pts(&mut self, pts: i64)
        ensures
            *final(self) == (VideoFrame { pts, ..*old(self) }),
    {
        self.pts = pts;
    }

    pub fn get_dts(&self) -> (r: Option<i64>)
        ensures
            r == self.dts,
    {
        self.dts
    }

    pub fn set_dts(&mut self, dts: Option<i64>)
        ensures
            *final(self) == (VideoFrame { dts, ..*old(self) }),
    {
        self.dts = dts;
    }

    pub fn get_duration(&self) -> (r: Option<i64>)
        ensures
            r == self.duration,
    {
        self.duration
    }

    pub fn set_duration(&mut self, duration: Option<i64>)
        ensures
            *final(self) == (VideoFrame { duration, ..*old(self) }),
    {
        self.duration = duration;
    }

    pub fn get_uuid(&self) -> (r: u128)
        ensures
            r == self.uuid,
    {
        self.uuid
    }

    pub fn get_creation_timestamp_ns(&self) -> (r: u128)
        ensures
            r == self.creation_timestamp_ns,
    {
        self.creation_timestamp_ns
    }

    pub fn set_creation_timestamp_ns(&mut self, timestamp: u128)
        ensures
            *final(self) == (VideoFrame { creation_timestamp_ns: timestamp, ..*old(self) }),
    {
        self.creation_timestamp_ns = timestamp;
    }

    // --- encoding ---

    pub fn get_transcoding_method(&self) -> (r: VideoFrameTranscodingMethod)
        ensures
            r == self.transcoding_method,
    {
        self.transcoding_method
    }

    pub fn set_transcoding_method(&mut self, transcoding_method: VideoFrameTranscodingMethod)
        ensures
            *final(self) == (VideoFrame { transcoding_method, ..*old(self) }),
    {
        self.transcoding_method = transcoding_method;
    }

    pub fn get_codec(&self) -> (r: Option<String>)
        ensures
            match (r, &self.codec) {
                (Some(a), Some(b)) => a@ == b@,
                (None, None) => true,
                _ => false,
            },
    {
        match &self.codec {
            Some(c) => Some(c.clone()),
            None => None,
        }
    }

    pub fn set_codec(&mut self, codec: Option<String>)
        ensures
            *final(self) == (VideoFrame { codec, ..*old(self) }),
    {
        self.codec = codec;
    }

    pub fn get_keyframe(&self) -> (r: Option<bool>)
        ensures
            r == self.keyframe,
    {
        self.keyframe
    }

    pub fn set_keyframe(&mut self, keyframe: Option<bool>)
        ensures
            *final(self) == (VideoFrame { keyframe, ..*old(self) }),
    {
        self.keyframe = keyframe;
    }

    pub fn get_content(&self) -> (r: VideoFrameContent)
        ensures
            r@ == self@.content,
    {
        self.content.clone()
    }

    pub fn set_content(&mut self, content: VideoFrameContent)
        ensures
            *final(self) == (VideoFrame { content, ..*old(self) }),
    {
        self.content = content;
    }

    // --- geometry history ---

    pub fn add_transformation(&mut self, transformation: VideoFrameTransformation)
        ensures
            *final(self) == (VideoFrame {
                transformations: final(self).transformations,
                ..*old(self)
            }),
            final(self)@.transformations == old(self)@.transformations.push(transformation),
    {
        self.transformations.push(transformation);
    }

    pub fn clear_transformations(&mut self)
        ensures
            *final(self) == (VideoFrame {
                transformations: final(self).transformations,
                ..*old(self)
            }),
            final(self)@.transformations == Seq::<VideoFrameTransformation>::empty(),
    {
        self.transformations.clear();
        proof {
            assert(final(self)@.transformations =~= Seq::<VideoFrameTransformation>::empty());
        }
    }

    pub fn get_transformations(&self) -> (r: Vec<VideoFrameTransformation>)
        ensures
            r@ == self@.transformations,
    {
        let mut r: Vec<VideoFrameTransformation> = Vec::new();
        let n = self.transformations.len();
        let mut i: usize = 0;
        while i < n
            invariant
                n == self.transformations@.len(),
                i <= n,
                r@.len() == i,
                forall|j: int| 0 <= j < i ==> #[trigger] r@[j] == self.transformations@[j],
            decreases n - i,
        {
            r.push(self.transformations[i]);
            i += 1;
        }
        proof {
            assert(r@ =~= self@.transformations);
        }
        r
    }

    // --- attributes ---

    /// The (namespace, name) pairs of the frame's attributes, in table order.
    pub fn attributes(&self) -> (r: Vec<(String, String)>)
        requires
            self.wf(),
        ensures
            r@.len() == self.attributes.seq().len(),
            forall|j: int|
                0 <= j < r@.len() ==> ((#[trigger] r@[j]).0@, r@[j].1@) == key_of(
                    self.attributes.seq()[j]@,
                ) && self@.attributes.contains_key((r@[j].0@, r@[j].1@)),
    {
        proof {
            assert forall|j: int| 0 <= j < self.attributes.seq().len() implies
                self@.attributes.contains_key(key_of(self.attributes.seq()[j]@)) by {
                self.attributes.lemma_seq_view(j);
            }
        }
        self.attributes.keys()
    }

    pub fn get_attribute(&self, namespace: &str, name: &str) -> (r: Option<&Attribute>)
        requires
            self.wf(),
        ensures
            match r {
                Some(a) => self@.attributes.contains_key((namespace@, name@)) && a@
                    == self@.attributes.index((namespace@, name@)),
                None => !self@.attributes.contains_key((namespace@, name@)),
            },
    {
        self.attributes.get(namespace, name)
    }

    pub fn set_attribute(&mut self, attribute: Attribute) -> (r: Option<Attribute>)
        requires
            old(self).wf(),
        ensures
            final(self).wf(),
            *final(self) == (VideoFrame { attributes: final(self).attributes, ..*old(self) }),
            final(self)@.attributes =~= old(self)@.attributes.insert(
                key_of(attribute@),
                attribute@,
            ),
            match r {
                Some(b) => old(self)@.attributes.contains_key(key_of(attribute@)) && b@ == old(
                    self,
                )@.attributes.index(key_of(attribute@)),
                None => !old(self)@.attributes.contains_key(key_of(attribute@)),
            },
    {
        self.attributes.set(attribute)
    }

    pub fn delete_attribute(&mut self, namespace: &str, name: &str) -> (r: Option<Attribute>)
        requires
            old(self).wf(),
        ensures
            final(self).wf(),
            *final(self) == (VideoFrame { attributes: final(self).attributes, ..*old(self) }),
            final(self)@.attributes =~= old(self)@.attributes.remove((namespace@, name@)),
            match r {
                Some(a) => old(self)@.attributes.contains_key((namespace@, name@)) && a@ == old(
                    self,
                )@.attributes.index((namespace@, name@)),
                None => !old(self)@.attributes.contains_key((namespace@, name@)),
            },
    {
        self.attributes.remove(namespace, name)
    }

    pub fn clear_attributes(&mut self)
        ensures
            old(self).wf() ==> final(self).wf(),
            *final(self) == (VideoFrame { attributes: final(self).attributes, ..*old(self) }),
            final(self)@.attributes =~= Map::<(Seq<char>, Seq<char>), AttributeView>::empty(),
    {
        self.attributes.clear();
    }

    /// Files a persistent attribute built from the pieces, replacing any
    /// attribute of the same namespace and name.
    pub fn set_persistent_attribute(
        &mut self,
        namespace: &str,
        name: &str,
        is_hidden: bool,
        hint: Option<String>,
        values: Option<Vec<AttributeValue>>,
    )
        requires
            old(self).wf(),
        ensures
            final(self).wf(),
            *final(self) == (VideoFrame { attributes: final(self).attributes, ..*old(self) }),
            final(self)@.attributes.contains_key((namespace@, name@)),
            final(self)@.attributes =~= old(self)@.attributes.insert(
                (namespace@, name@),
                final(self)@.attributes.index((namespace@, name@)),
            ),
            final(self)@.attributes.index((namespace@, name@)).is_persistent,
            final(self)@.attributes.index((namespace@, name@)).is_hidden == is_hidden,
    {
        let vals = match values {
            Some(v) => v,
            None => Vec::new(),
        };
        let a = Attribute::new(namespace.to_owned(), name.to_owned(), hint, is_hidden, true, vals);
        self.attributes.set(a);
    }

    /// Files a temporary attribute built from the pieces, replacing any
    /// attribute of the same namespace and name.
    pub fn set_temporary_attribute(
        &mut self,
        namespace: &str,
        name: &str,
        is_hidden: bool,
        hint: Option<String>,
        values: Option<Vec<AttributeValue>>,
    )
        requires
            old(self).wf(),
        ensures
            final(self).wf(),
            *final(self) == (VideoFrame { attributes: final(self).attributes, ..*old(self) }),
            final(self)@.attributes.contains_key((namespace@, name@)),
            final(self)@.attributes =~= old(self)@.attributes.insert(
                (namespace@, name@),
                final(self)@.attributes.index((namespace@, name@)),
            ),
            !final(self)@.attributes.index((namespace@, name@)).is_persistent,
            final(self)@.attributes.index((namespace@, name@)).is_hidden == is_hidden,
    {
        let vals = match values {
            Some(v) => v,
            None => Vec::new(),
        };
        let a = Attribute::new(namespace.to_owned(), name.to_owned(), hint, is_hidden, false, vals);
        self.attributes.set(a);
    }

    /// Removes every attribute filed under the namespace.
    pub fn delete_attributes_with_ns(&mut self, namespace: &str)
        requires
            old(self).wf(),
        ensures
            final(self).wf(),
            *final(self) == (VideoFrame { attributes: final(self).attributes, ..*old(self) }),
            final(self)@.attributes =~= Map::new(
                |k: (Seq<char>, Seq<char>)|
                    old(self)@.attributes.contains_key(k) && k.0 != namespace@,
                |k: (Seq<char>, Seq<char>)| old(self)@.attributes.index(k),
            ),
    {
        self.attributes.delete_with_ns(namespace);
    }

    /// Removes every attribute whose name is listed.
    pub fn delete_attributes_with_names(&mut self, names: Vec<String>)
        requires
            old(self).wf(),
        ensures
            final(self).wf(),
            *final(self) == (VideoFrame { attributes: final(self).attributes, ..*old(self) }),
            final(self)@.attributes =~= Map::new(
                |k: (Seq<char>, Seq<char>)|
                    old(self)@.attributes.contains_key(k) && !spec_contains_str(
                        names.deep_view(),
                        k.1,
                    ),
                |k: (Seq<char>, Seq<char>)| old(self)@.attributes.index(k),
            ),
    {
        self.attributes.delete_with_names(&names);
    }

    /// Removes every attribute whose hint is listed.
    pub fn delete_attributes_with_hints(&mut self, hints: Vec<Option<String>>)
        requires
            old(self).wf(),
        ensures
            final(self).wf(),
            *final(self) == (VideoFrame { attributes: final(self).attributes, ..*old(self) }),
            final(self)@.attributes =~= Map::new(
                |k: (Seq<char>, Seq<char>)|
                    old(self)@.attributes.contains_key(k) && !crate::attrset::spec_hint_in(
                        old(self)@.attributes.index(k).hint,
                        hints.deep_view(),
                    ),
                |k: (Seq<char>, Seq<char>)| old(self)@.attributes.index(k),
            ),
    {
        self.attributes.delete_with_hints(&hints);
    }

    /// The (namespace, name) pairs filed under the namespace, in table
    /// order.
    pub fn find_attributes_with_ns(&self, namespace: &str) -> (r: Vec<(String, String)>)
        requires
            self.wf(),
        ensures
            pair_keys_view(r@) == spec_keys_where_ns(self.attributes.seq(), namespace@),
    {
        self.attributes.keys_with_ns(namespace)
    }

    /// The (namespace, name) pairs whose name is listed, in table order.
    pub fn find_attributes_with_names(&self, names: Vec<String>) -> (r: Vec<(String, String)>)
        requires
            self.wf(),
        ensures
            pair_keys_view(r@) == spec_keys_where_name(self.attributes.seq(), names.deep_view()),
    {
        self.attributes.keys_with_names(&names)
    }

    /// The (namespace, name) pairs whose hint is listed, in table order.
    pub fn find_attributes_with_hints(&self, hints: Vec<Option<String>>) -> (r: Vec<
        (String, String),
    >)
        requires
            self.wf(),
        ensures
            pair_keys_view(r@) == spec_keys_where_hint(self.attributes.seq(), hints.deep_view()),
    {
        self.attributes.keys_with_hints(&hints)
    }

    // --- objects ---

    pub fn add_object(&mut self, object: VideoObject, policy: IdCollisionResolutionPolicy) -> (r:
        Result<(), FrameError>)
        requires
            old(self).wf(),
            object.wf(),
        ensures
            final(self).wf(),
            *final(self) == (VideoFrame { objects: final(self).objects, ..*old(self) }),
            match r {
                Ok(_) => {
                    &&& final(self)@.objects =~= old(self)@.objects.insert(object.id, object@)
                    &&& (old(self)@.objects.contains_key(object.id) ==> policy
                        == IdCollisionResolutionPolicy::Overwrite)
                },
                Err(e) => {
                    &&& e == FrameError::ObjectIdCollision
                    &&& old(self)@.objects.contains_key(object.id)
                    &&& policy == IdCollisionResolutionPolicy::Error
                    &&& *final(self) == *old(self)
                },
            },
    {
        let id = object.id;
        let present = self.objects.contains(id);
        if present {
            match policy {
                IdCollisionResolutionPolicy::Error => {
                    return Err(FrameError::ObjectIdCollision);
                },
                IdCollisionResolutionPolicy::Overwrite => {},
            }
        }
        self.objects.insert(id, object);
        proof {
            assert(final(self)@.objects =~= old(self)@.objects.insert(id, object@));
        }
        Ok(())
    }

    pub fn get_object(&self, id: i64) -> (r: Option<&VideoObject>)
        requires
            self.wf(),
        ensures
            match r {
                Some(o) => self@.objects.contains_key(id) && o@ == self@.objects.index(id)
                    && o.wf() && o.id == id,
                None => !self@.objects.contains_key(id),
            },
    {
        self.objects.get(id)
    }

    pub fn clear_objects(&mut self)
        ensures
            old(self).wf() ==> final(self).wf(),
            *final(self) == (VideoFrame { objects: final(self).objects, ..*old(self) }),
            final(self)@.objects =~= Map::<i64, ObjectView>::empty(),
    {
        self.objects = IdMap::new();
        proof {
            assert(final(self)@.objects =~= Map::<i64, ObjectView>::empty());
        }
    }

    // --- object graph ---

    /// Builds an object from the pieces, allocates a fresh id above every
    /// id the frame has handed out, and files it. A parent id naming no
    /// object of the frame, or an inconsistent track pair, is refused.
    #[verifier::loop_isolation(false)]
    pub fn create_object(
        &mut self,
        namespace: &str,
        label: &str,
        parent_id: Option<i64>,
        detection_box: crate::bbox::BBox,
        confidence: Option<crate::float_value::FloatValue>,
        track_id: Option<i64>,
        track_box: Option<crate::bbox::BBox>,
        attributes: Vec<Attribute>,
    ) -> (r: Result<i64, FrameError>)
        requires
            old(self).wf(),
        ensures
            final(self).wf(),
            match r {
                Ok(id) => {
                    &&& (track_id is Some <==> track_box is Some)
                    &&& (parent_id matches Some(p) ==> old(self)@.objects.contains_key(p))
                    &&& !old(self)@.objects.contains_key(id)
                    &&& forall|k: i64| old(self)@.objects.contains_key(k) ==> k < id
                    &&& *final(self) == (VideoFrame {
                        objects: final(self).objects,
                        ..*old(self)
                    })
                    &&& final(self)@.objects =~= old(self)@.objects.insert(
                        id,
                        ObjectView {
                            id,
                            namespace: namespace@,
                            label: label@,
                            detection_box,
                            confidence,
                            track_id,
                            track_box,
                            parent_id,
                            attributes: spec_apply_attrs(
                                Map::empty(),
                                attributes.deep_view(),
                            ),
                        },
                    )
                },
                Err(e) => {
                    &&& *final(self) == *old(self)
                    &&& (e == FrameError::TrackInfoMismatch <==> !(track_id is Some
                        <==> track_box is Some))
                    &&& (e == FrameError::ParentNotFound <==> (track_id is Some
                        <==> track_box is Some) && (parent_id matches Some(p)
                        && !old(self)@.objects.contains_key(p)))
                    &&& (e == FrameError::TrackInfoMismatch || e == FrameError::ParentNotFound
                        || e == FrameError::ObjectIdCollision)
                },
            },
    {
        let consistent = match (&track_id, &track_box) {
            (Some(_), Some(_)) => true,
            (None, None) => true,
            _ => false,
        };
        if !consistent {
            return Err(FrameError::TrackInfoMismatch);
        }
        match parent_id {
            Some(p) => {
                if !self.objects.contains(p) {
                    return Err(FrameError::ParentNotFound);
                }
            },
            None => {},
        }
        // the smallest id above everything the frame holds
        let n = self.objects.len();
        let mut top: i64 = -1;
        let mut i: usize = 0;
        while i < n
            invariant
                old(self).wf(),
                *self == *old(self),
                n == self.objects.seq().len(),
                i <= n,
                forall|j: int| 0 <= j < i ==> (#[trigger] self.objects.seq()[j]).0 <= top,
            decreases n - i,
        {
            if self.objects.entries[i].0 > top {
                top = self.objects.entries[i].0;
            }
            i += 1;
        }
        if top == i64::MAX {
            return Err(FrameError::ObjectIdCollision);
        }
        let id = top + 1;
        proof {
            assert forall|k: i64| old(self)@.objects.contains_key(k) implies k < id by {
                let j = self.objects.index_of(k);
                assert(self.objects.seq()[j].0 == k);
            }
        }
        let mut aset = AttributeSet::new();
        let ghost av = attributes.deep_view();
        let na = attributes.len();
        let mut attributes = attributes;
        let mut t: usize = 0;
        let ghost nt = av.len();
        proof {
            assert(nt == na as nat);
        }
        while attributes.len() > 0
            invariant
                nt == av.len(),
                nt == na as nat,
                t + attributes@.len() == nt,
                attributes.deep_view() =~= av.skip(t as int),
                aset.wf(),
                aset@ =~= spec_apply_attrs(Map::empty(), av.take(t as int)),
            decreases attributes@.len(),
        {
            let ghost prev_vec = attributes@;
            let ghost prev_dv = attributes.deep_view();
            let a = attributes.remove(0);
            proof {
                assert(a == prev_vec[0]);
                assert(a@ == prev_dv[0]);
                assert(a@ == av[t as int]);
                assert forall|q: int|
                    0 <= q < attributes@.len() implies #[trigger] attributes.deep_view()[q]
                    == av[t + 1 + q] by {
                    assert(attributes@[q] == prev_vec.subrange(1, prev_vec.len() as int)[q]);
                    assert(attributes@[q] == prev_vec[q + 1]);
                    assert(attributes.deep_view()[q] == attributes@[q].deep_view());
                    assert(prev_dv[q + 1] == prev_vec[q + 1].deep_view());
                    assert(prev_dv[q + 1] == av.skip(t as int)[q + 1]);
                }
                assert(attributes.deep_view() =~= av.skip(t + 1));
                assert(av.take(t + 1).drop_last() =~= av.take(t as int));
                assert(av.take(t + 1).last() == av[t as int]);
            }
            aset.set(a);
            proof {
                assert(aset@ =~= spec_apply_attrs(Map::empty(), av.take(t + 1)));
            }
            t += 1;
        }
        proof {
            assert(av.take(nt as int) =~= av);
        }
        let o = VideoObject {
            id,
            namespace: namespace.to_owned(),
            label: label.to_owned(),
            detection_box,
            confidence,
            track_id,
            track_box,
            parent_id,
            attributes: aset,
        };
        let ghost ov = o@;
        self.objects.insert(id, o);
        proof {
            assert(final(self)@.objects =~= old(self)@.objects.insert(id, ov));
        }
        Ok(id)
    }

    /// Ties the object to a new parent of the same frame. Both must
    /// exist, and the new link must not close a parentage cycle: the
    /// walk up from the parent must end below a root without meeting
    /// the object.
    pub fn set_parent_by_id(&mut self, object_id: i64, parent_id: i64) -> (r: Result<
        (),
        FrameError,
    >)
        requires
            old(self).wf(),
        ensures
            final(self).wf(),
            match r {
                Ok(_) => {
                    &&& old(self)@.objects.contains_key(object_id)
                    &&& old(self)@.objects.contains_key(parent_id)
                    &&& spec_walk_hits(
                        old(self)@.objects,
                        parent_id,
                        object_id,
                        old(self).objects.seq().len(),
                    ) == Some(false)
                    &&& *final(self) == (VideoFrame {
                        objects: final(self).objects,
                        ..*old(self)
                    })
                    &&& final(self)@.objects =~= old(self)@.objects.insert(
                        object_id,
                        ObjectView {
                            parent_id: Some(parent_id),
                            ..old(self)@.objects.index(object_id)
                        },
                    )
                },
                Err(e) => {
                    &&& *final(self) == *old(self)
                    &&& (e == FrameError::ObjectNotFound <==> !(old(self)@.objects.contains_key(
                        object_id,
                    ) && old(self)@.objects.contains_key(parent_id)))
                    &&& (e == FrameError::CyclicParent <==> old(self)@.objects.contains_key(
                        object_id,
                    ) && old(self)@.objects.contains_key(parent_id) && spec_walk_hits(
                        old(self)@.objects,
                        parent_id,
                        object_id,
                        old(self).objects.seq().len(),
                    ) != Some(false))
                    &&& (e == FrameError::ObjectNotFound || e == FrameError::CyclicParent)
                },
            },
    {
        if !self.objects.contains(object_id) || !self.objects.contains(parent_id) {
            return Err(FrameError::ObjectNotFound);
        }
        proof {
            assert(self@.objects.contains_key(object_id));
            assert(self@.objects.contains_key(parent_id));
        }
        let n = self.objects.len();
        let mut fuel: usize = n;
        let mut cur: i64 = parent_id;
        let ghost m = self@.objects;
        while fuel > 0
            invariant
                old(self).wf(),
                *self == *old(self),
                m == self@.objects,
                m.contains_key(object_id),
                m.contains_key(parent_id),
                n == self.objects.seq().len(),
                fuel <= n,
                spec_walk_hits(m, parent_id, object_id, n as nat) == spec_walk_hits(
                    m,
                    cur,
                    object_id,
                    fuel as nat,
                ),
            ensures
                *self == *old(self),
                fuel <= n,
                spec_walk_hits(m, parent_id, object_id, n as nat) == spec_walk_hits(
                    m,
                    cur,
                    object_id,
                    fuel as nat,
                ),
                fuel == 0 || spec_walk_hits(m, cur, object_id, fuel as nat) == Some(false),
            decreases fuel,
        {
            if cur == object_id {
                proof {
                    assert(spec_walk_hits(m, cur, object_id, fuel as nat) == Some(true));
                    assert(spec_walk_hits(m, parent_id, object_id, n as nat) == Some(true));
                    assert(old(self)@.objects.contains_key(object_id));
                    assert(old(self)@.objects.contains_key(parent_id));
                    assert(old(self).objects.seq().len() == n);
                }
                return Err(FrameError::CyclicParent);
            }
            let step = self.objects.get(cur);
            match step {
                None => {
                    proof {
                        assert(!self.objects@.contains_key(cur));
                        assert(!m.contains_key(cur));
                        assert(spec_walk_hits(m, cur, object_id, fuel as nat) == Some(false));
                    }
                    break ;
                },
                Some(o) => {
                    proof {
                        assert(m.contains_key(cur));
                        assert(m.index(cur) == self.objects@.index(cur)@);
                        assert(m.index(cur).parent_id == o.parent_id);
                    }
                    match o.parent_id {
                        None => {
                            proof {
                                assert(spec_walk_hits(m, cur, object_id, fuel as nat) == Some(
                                    false,
                                ));
                            }
                            break ;
                        },
                        Some(p) => {
                            proof {
                                assert(spec_walk_hits(m, cur, object_id, fuel as nat)
                                    == spec_walk_hits(m, p, object_id, (fuel - 1) as nat));
                            }
                            cur = p;
                            fuel -= 1;
                        },
                    }
                },
            }
        }
        if fuel == 0 {
            if cur == object_id {
                proof {
                    assert(spec_walk_hits(m, parent_id, object_id, n as nat) == Some(true));
                }
                return Err(FrameError::CyclicParent);
            }
            let step2 = self.objects.get(cur);
            match step2 {
                None => {
                    proof {
                        assert(!m.contains_key(cur));
                        assert(spec_walk_hits(m, cur, object_id, 0) == Some(false));
                    }
                },
                Some(o) => {
                    proof {
                        assert(m.contains_key(cur));
                        assert(m.index(cur) == self.objects@.index(cur)@);
                        assert(m.index(cur).parent_id == o.parent_id);
                    }
                    match o.parent_id {
                        None => {
                            proof {
                                assert(spec_walk_hits(m, cur, object_id, 0) == Some(false));
                            }
                        },
                        Some(_) => {
                            proof {
                                assert(spec_walk_hits(m, cur, object_id, 0) is None);
                            }
                            return Err(FrameError::CyclicParent);
                        },
                    }
                },
            }
        }
        proof {
            assert(spec_walk_hits(m, parent_id, object_id, n as nat) == Some(false));
        }
        let removed = self.objects.remove(object_id);
        match removed {
            Some(mut o) => {
                o.set_parent(Some(parent_id));
                let ghost ov = o@;
                self.objects.insert(object_id, o);
                proof {
                    assert(final(self)@.objects =~= old(self)@.objects.insert(object_id, ov));
                    assert(ov == (ObjectView {
                        parent_id: Some(parent_id),
                        ..old(self)@.objects.index(object_id)
                    }));
                }
                Ok(())
            },
            None => {
                proof {
                    assert(false);
                }
                Err(FrameError::ObjectNotFound)
            },
        }
    }

    /// The frame's direct children of `id`, in table order.
    pub fn get_children(&self, id: i64) -> (r: Vec<VideoObject>)
        requires
            self.wf(),
        ensures
            r.deep_view() == spec_children_of(self.objects.seq(), id),
            forall|j: int| 0 <= j < r@.len() ==> (#[trigger] r@[j]).wf(),
    {
        let ghost sv = self.objects.seq();
        let mut r: Vec<VideoObject> = Vec::new();
        let n = self.objects.len();
        let mut i: usize = 0;
        while i < n
            invariant
                self.wf(),
                sv == self.objects.seq(),
                n == sv.len(),
                i <= n,
                r.deep_view() =~= spec_children_of(sv.take(i as int), id),
                forall|j: int| 0 <= j < r@.len() ==> (#[trigger] r@[j]).wf(),
            decreases n - i,
        {
            proof {
                assert(sv.take(i + 1).drop_last() =~= sv.take(i as int));
                assert(sv.take(i + 1).last() == sv[i as int]);
                self.objects.lemma_seq_view(i as int);
            }
            let o = &self.objects.entries[i].1;
            let is_child = match o.parent_id {
                Some(p) => p == id,
                None => false,
            };
            if is_child {
                r.push(o.clone());
            }
            proof {
                assert(r.deep_view() =~= spec_children_of(sv.take(i + 1), id));
            }
            i += 1;
        }
        proof {
            assert(sv.take(n as int) =~= sv);
        }
        r
    }

    // --- deferred updates ---

    /// Applies an update: every attribute is filed, then every carried
    /// object is added under the update's collision policy. A collision
    /// under the `Error` policy stops the walk; what was applied before
    /// it stays applied.
    pub fn update(&mut self, update: &VideoFrameUpdate) -> (r: Result<(), FrameError>)
        requires
            old(self).wf(),
            update.wf(),
        ensures
            final(self).wf(),
            *final(self) == (VideoFrame {
                attributes: final(self).attributes,
                objects: final(self).objects,
                ..*old(self)
            }),
            final(self)@.attributes == spec_apply_attrs(
                old(self)@.attributes,
                update@.attributes,
            ),
            final(self)@.objects == spec_apply_objects(
                old(self)@.objects,
                update@.objects,
                update@.object_collision_policy,
            ).0,
            (r is Ok) == spec_apply_objects(
                old(self)@.objects,
                update@.objects,
                update@.object_collision_policy,
            ).1,
            r is Err ==> r == Err::<(), FrameError>(FrameError::ObjectIdCollision),
    {
        let ghost attrs0 = self@.attributes;
        let ghost objs0 = self@.objects;
        let ghost avs = update@.attributes;
        let na = update.attributes.len();
        let mut i: usize = 0;
        while i < na
            invariant
                old(self).wf(),
                update.wf(),
                na == update.attributes@.len(),
                avs == update@.attributes,
                i <= na,
                self.wf(),
                *self == (VideoFrame { attributes: self.attributes, ..*old(self) }),
                self@.attributes == spec_apply_attrs(attrs0, avs.take(i as int)),
                attrs0 == old(self)@.attributes,
            decreases na - i,
        {
            let a = update.attributes[i].clone();
            proof {
                assert(avs.take(i + 1).drop_last() =~= avs.take(i as int));
                assert(avs.take(i + 1).last() == avs[i as int]);
            }
            self.attributes.set(a);
            i += 1;
        }
        proof {
            assert(avs.take(na as int) =~= avs);
        }
        let ghost ovs = update@.objects;
        let ghost policy = update@.object_collision_policy;
        let no = update.objects.len();
        let mut j: usize = 0;
        while j < no
            invariant
                old(self).wf(),
                update.wf(),
                no == update.objects@.len(),
                ovs == update@.objects,
                policy == update@.object_collision_policy,
                j <= no,
                self.wf(),
                *self == (VideoFrame {
                    attributes: self.attributes,
                    objects: self.objects,
                    ..*old(self)
                }),
                self@.attributes == spec_apply_attrs(old(self)@.attributes, update@.attributes),
                objs0 == old(self)@.objects,
                spec_apply_objects(objs0, ovs.take(j as int), policy) == (self@.objects, true),
            decreases no - j,
        {
            let o = update.objects[j].clone();
            proof {
                assert(update.objects@[j as int].wf());
                assert(ovs.take(j + 1).drop_last() =~= ovs.take(j as int));
                assert(ovs.take(j + 1).last() == ovs[j as int]);
            }
            let present = self.objects.contains(o.id);
            if present {
                match update.object_collision_policy {
                    IdCollisionResolutionPolicy::Error => {
                        proof {
                            lemma_apply_objects_fail_stable(objs0, ovs, policy, j as int);
                        }
                        return Err(FrameError::ObjectIdCollision);
                    },
                    IdCollisionResolutionPolicy::Overwrite => {},
                }
            }
            let ghost ov = o@;
            let id = o.id;
            self.objects.insert(id, o);
            proof {
                assert(self@.objects =~= spec_apply_objects(objs0, ovs.take(j + 1), policy).0);
            }
            j += 1;
        }
        proof {
            assert(ovs.take(no as int) =~= ovs);
        }
        Ok(())
    }
}

/// Once the object walk has failed, walking further objects changes
/// nothing: the map and the failure stand.
proof fn lemma_apply_objects_fail_stable(
    m: Map<i64, ObjectView>,
    objs: Seq<ObjectView>,
    policy: IdCollisionResolutionPolicy,
    i: int,
)
    requires
        0 <= i < objs.len(),
        spec_apply_objects(m, objs.take(i), policy).1,
        spec_apply_objects(m, objs.take(i), policy).0.contains_key(objs[i].id),
        policy is Error,
    ensures
        spec_apply_objects(m, objs, policy) == (
            spec_apply_objects(m, objs.take(i), policy).0,
            false,
        ),
    decreases objs.len() - i,
{
    let m2 = spec_apply_objects(m, objs.take(i), policy).0;
    assert(objs.take(i + 1).drop_last() =~= objs.take(i));
    assert(objs.take(i + 1).last() == objs[i]);
    assert(spec_apply_objects(m, objs.take(i + 1), policy) == (m2, false));
    lemma_apply_objects_failed_spreads(m, objs, policy, i + 1);
    assert(objs.take(objs.len() as int) =~= objs);
}

/// A failed walk stays failed on any longer prefix, with the same map.
proof fn lemma_apply_objects_failed_spreads(
    m: Map<i64, ObjectView>,
    objs: Seq<ObjectView>,
    policy: IdCollisionResolutionPolicy,
    j: int,
)
    requires
        0 < j <= objs.len(),
        !spec_apply_objects(m, objs.take(j), policy).1,
    ensures
        forall|k: int|
            j <= k <= objs.len() ==> #[trigger] spec_apply_objects(m, objs.take(k), policy)
                == spec_apply_objects(m, objs.take(j), policy),
    decreases objs.len() - j,
{
    if j < objs.len() {
        assert(objs.take(j + 1).drop_last() =~= objs.take(j));
        assert(spec_apply_objects(m, objs.take(j + 1), policy) == spec_apply_objects(
            m,
            objs.take(j),
            policy,
        ));
        lemma_apply_objects_failed_spreads(m, objs, policy, j + 1);
        assert forall|k: int|
            j <= k <= objs.len() implies #[trigger] spec_apply_objects(m, objs.take(k), policy)
            == spec_apply_objects(m, objs.take(j), policy) by {
            if k > j {
                assert(spec_apply_objects(m, objs.take(k), policy) == spec_apply_objects(
                    m,
                    objs.take(j + 1),
                    policy,
                ));
            }
        }
    }
}

/// Where the parent walk from `cur` ends within `fuel` steps:
/// `Some(true)` when it meets `target`, `Some(false)` when it ends
/// below a root or a dangling link first, nothing when the fuel runs
/// out before either.
pub open spec fn spec_walk_hits(
    m: Map<i64, ObjectView>,
    cur: i64,
    target: i64,
    fuel: nat,
) -> Option<bool>
    decreases fuel,
{
    if cur == target {
        Some(true)
    } else if !m.contains_key(cur) {
        Some(false)
    } else {
        match m.index(cur).parent_id {
            None => Some(false),
            Some(p) => {
                if fuel == 0 {
                    None
                } else {
                    spec_walk_hits(m, p, target, (fuel - 1) as nat)
                }
            },
        }
    }
}

/// The views of the table entries whose parent link names `id`, in
/// table order.
pub open spec fn spec_children_of(s: Seq<(i64, VideoObject)>, id: i64) -> Seq<ObjectView>
    decreases s.len(),
{
    if s.len() == 0 {
        Seq::empty()
    } else {
        let rest = spec_children_of(s.drop_last(), id);
        if s.last().1@.parent_id == Some(id) {
            rest.push(s.last().1@)
        } else {
            rest
        }
    }
}

impl Clone for VideoFrame {
    fn clone(&self) -> (r: Self)
        ensures
            self.wf() ==> r.wf() && r@ == self@,
    {
        let codec = match &self.codec {
            Some(c) => Some(c.clone()),
            None => None,
        };
        let mut transformations: Vec<VideoFrameTransformation> = Vec::new();
        let n = self.transformations.len();
        let mut i: usize = 0;
        while i < n
            invariant
                n == self.transformations@.len(),
                i <= n,
                transformations@.len() == i,
                forall|j: int| 0 <= j < i ==> #[trigger] transformations@[j]
                    == self.transformations@[j],
            decreases n - i,
        {
            transformations.push(self.transformations[i]);
            i += 1;
        }
        let mut objects: IdMap<VideoObject> = IdMap::new();
        let m = self.objects.len();
        let mut k: usize = 0;
        while k < m
            invariant
                m == self.objects.seq().len(),
                k <= m,
                objects.wf(),
                self.wf() ==> forall|key: i64| #[trigger]
                    objects@.contains_key(key) ==> self.objects@.contains_key(key)
                        && objects@[key]@ == self.objects@[key]@ && objects@[key].id
                        == self.objects@[key].id && objects@[key].wf(),
                self.wf() ==> forall|j: int|
                    0 <= j < k ==> objects@.contains_key((#[trigger] self.objects.seq()[j]).0),
            decreases m - k,
        {
            let key = self.objects.entries[k].0;
            let oc = self.objects.entries[k].1.clone();
            proof {
                if self.wf() {
                    self.objects.lemma_seq_view(k as int);
                }
            }
            objects.insert(key, oc);
            k += 1;
        }
        let r = VideoFrame {
            source_id: self.source_id.clone(),
            framerate: self.framerate.clone(),
            width: self.width,
            height: self.height,
            content: self.content.clone(),
            transcoding_method: self.transcoding_method,
            codec,
            keyframe: self.keyframe,
            time_base: self.time_base,
            pts: self.pts,
            dts: self.dts,
            duration: self.duration,
            uuid: self.uuid,
            creation_timestamp_ns: self.creation_timestamp_ns,
            previous_frame_seq_id: self.previous_frame_seq_id,
            transformations,
            attributes: self.attributes.clone(),
            objects,
        };
        proof {
            if self.wf() {
                assert(r.transformations@ =~= self.transformations@);
                assert forall|key: i64| #[trigger]
                    r.objects@.contains_key(key) == self.objects@.contains_key(key) by {
                    if self.objects@.contains_key(key) {
                        let j = self.objects.index_of(key);
                        assert(0 <= j < self.objects.seq().len() && self.objects.seq()[j].0
                            == key);
                    }
                }
                assert(r@.objects =~= self@.objects);
                assert(r@ =~= self@);
            }
        }
        r
    }
}

} // verus!
