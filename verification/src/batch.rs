use vstd::prelude::*;

use crate::frame::{FrameView, VideoFrame};
use crate::idmap::IdMap;

verus! {

/// An ordered collection of frames keyed by the pipeline ids they held
/// when they were packed.
#[derive(Debug)]
pub struct VideoFrameBatch {
    pub frames: IdMap<VideoFrame>,
}

impl View for VideoFrameBatch {
    type V = Map<i64, FrameView>;

    open spec fn view(&self) -> Map<i64, FrameView> {
        self.frames@.map_values(|f: VideoFrame| f@)
    }
}

impl VideoFrameBatch {
    pub open spec fn wf(&self) -> bool {
        &&& self.frames.wf()
        &&& forall|k: i64| #[trigger]
            self.frames@.contains_key(k) ==> self.frames@[k].wf()
    }

    pub fn new() -> (r: VideoFrameBatch)
        ensures
            r.wf(),
            r@ =~= Map::<i64, FrameView>::empty(),
            r.frames.seq().len() == 0,
    {
        let r = VideoFrameBatch { frames: IdMap::new() };
        proof {
            assert(r@ =~= Map::<i64, FrameView>::empty());
        }
        r
    }

    /// Files `frame` under `id`, replacing any frame already there.
    pub fn add(&mut self, id: i64, frame: VideoFrame)
        requires
            old(self).wf(),
            frame.wf(),
        ensures
            final(self).wf(),
            final(self)@ =~= old(self)@.insert(id, frame@),
    {
        self.frames.insert(id, frame);
        proof {
            assert(final(self)@ =~= old(self)@.insert(id, frame@));
        }
    }

    pub fn get(&self, id: i64) -> (r: Option<&VideoFrame>)
        requires
            self.wf(),
        ensures
            match r {
                Some(f) => self@.contains_key(id) && f@ == self@[id] && f.wf(),
                None => !self@.contains_key(id),
            },
    {
        self.frames.get(id)
    }

    pub fn del(&mut self, id: i64) -> (r: Option<VideoFrame>)
        requires
            old(self).wf(),
        ensures
            final(self).wf(),
            final(self)@ =~= old(self)@.remove(id),
            match r {
                Some(f) => old(self)@.contains_key(id) && f@ == old(self)@[id],
                None => !old(self)@.contains_key(id),
            },
    {
        let r = self.frames.remove(id);
        proof {
            assert(final(self)@ =~= old(self)@.remove(id));
        }
        r
    }

    pub fn len(&self) -> (r: usize)
        ensures
            r == self.frames.seq().len(),
    {
        self.frames.len()
    }
}

} // verus!
