use vstd::prelude::*;

verus! {

/// Why a content accessor refused.
#[derive(Clone, Copy, Debug, PartialEq, Eq, Structural)]
pub enum ContentError {
    /// The video data is not stored internally.
    NotInternal,
    /// The video data is not stored externally.
    NotExternal,
}

/// Externally stored video data: the access method and an optional location.
#[derive(Debug)]
pub struct ExternalFrame {
    pub method: String,
    pub location: Option<String>,
}

#[verifier::ext_equal]
pub ghost struct ExternalFrameView {
    pub method: Seq<char>,
    pub location: Option<Seq<char>>,
}

impl View for ExternalFrame {
    type V = ExternalFrameView;

    open spec fn view(&self) -> ExternalFrameView {
        ExternalFrameView {
            method: self.method@,
            location: match self.location {
                Some(l) => Some(l@),
                None => None,
            },
        }
    }
}

impl Clone for ExternalFrame {
    fn clone(&self) -> (r: Self)
        ensures
            r@ == self@,
    {
        let location = match &self.location {
            Some(l) => Some(l.clone()),
            None => None,
        };
        ExternalFrame { method: self.method.clone(), location }
    }
}

impl ExternalFrame {
    pub fn new(method: &str, location: Option<String>) -> (r: ExternalFrame)
        ensures
            r@.method == method@,
            r.location == location,
    {
        ExternalFrame { method: method.to_owned(), location }
    }

    pub fn method(&self) -> (r: String)
        ensures
            r@ == self@.method,
    {
        self.method.clone()
    }

    pub fn location(&self) -> (r: Option<String>)
        ensures
            match (r, &self.location) {
                (Some(a), Some(b)) => a@ == b@,
                (None, None) => true,
                _ => false,
            },
    {
        match &self.location {
            Some(l) => Some(l.clone()),
            None => None,
        }
    }

    pub fn set_method(&mut self, method: String)
        ensures
            *final(self) == (ExternalFrame { method, ..*old(self) }),
    {
        self.method = method;
    }

    pub fn set_location(&mut self, location: Option<String>)
        ensures
            *final(self) == (ExternalFrame { location, ..*old(self) }),
    {
        self.location = location;
    }
}

/// Where a frame's pixel data lives: outside the process, inline as
/// bytes, or nowhere.
#[derive(Debug)]
pub enum VideoFrameContent {
    External(ExternalFrame),
    Internal(Vec<u8>),
    Empty,
}

#[verifier::ext_equal]
pub ghost enum ContentView {
    External(ExternalFrameView),
    Internal(Seq<u8>),
    Empty,
}

impl View for VideoFrameContent {
    type V = ContentView;

    open spec fn view(&self) -> ContentView {
        match self {
            VideoFrameContent::External(e) => ContentView::External(e@),
            VideoFrameContent::Internal(d) => ContentView::Internal(d@),
            VideoFrameContent::Empty => ContentView::Empty,
        }
    }
}

impl Clone for VideoFrameContent {
    fn clone(&self) -> (r: Self)
        ensures
            r@ == self@,
    {
        match self {
            VideoFrameContent::External(e) => VideoFrameContent::External(e.clone()),
            VideoFrameContent::Internal(d) => {
                let mut data: Vec<u8> = Vec::new();
                let n = d.len();
                let mut i: usize = 0;
                while i < n
                    invariant
                        n == d@.len(),
                        i <= n,
                        data@.len() == i,
                        forall|j: int| 0 <= j < i ==> #[trigger] data@[j] == d@[j],
                    decreases n - i,
                {
                    data.push(d[i]);
                    i += 1;
                }
                proof {
                    assert(data@ =~= d@);
                }
                VideoFrameContent::Internal(data)
            },
            VideoFrameContent::Empty => VideoFrameContent::Empty,
        }
    }
}

impl VideoFrameContent {
    pub fn external(method: String, location: Option<String>) -> (r: VideoFrameContent)
        ensures
            r == VideoFrameContent::External(ExternalFrame { method, location }),
    {
        VideoFrameContent::External(ExternalFrame { method, location })
    }

    pub fn internal(data: Vec<u8>) -> (r: VideoFrameContent)
        ensures
            r == VideoFrameContent::Internal(data),
    {
        VideoFrameContent::Internal(data)
    }

    pub fn none() -> (r: VideoFrameContent)
        ensures
            r == VideoFrameContent::Empty,
    {
        VideoFrameContent::Empty
    }

    pub fn is_external(&self) -> (r: bool)
        ensures
            r == (self@ is External),
    {
        match self {
            VideoFrameContent::External(_) => true,
            _ => false,
        }
    }

    pub fn is_internal(&self) -> (r: bool)
        ensures
            r == (self@ is Internal),
    {
        match self {
            VideoFrameContent::Internal(_) => true,
            _ => false,
        }
    }

    pub fn is_none(&self) -> (r: bool)
        ensures
            r == (self@ is Empty),
    {
        match self {
            VideoFrameContent::Empty => true,
            _ => false,
        }
    }

    /// The inline bytes, if the data is stored internally.
    pub fn get_data(&self) -> (r: Result<&Vec<u8>, ContentError>)
        ensures
            match r {
                Ok(d) => self@ is Internal && d@ == self@->Internal_0,
                Err(e) => !(self@ is Internal) && e == ContentError::NotInternal,
            },
    {
        match self {
            VideoFrameContent::Internal(d) => Ok(d),
            _ => Err(ContentError::NotInternal),
        }
    }

    pub fn get_method(&self) -> (r: Result<&String, ContentError>)
        ensures
            match r {
                Ok(m) => self@ is External && m@ == self@->External_0.method,
                Err(e) => !(self@ is External) && e == ContentError::NotExternal,
            },
    {
        match self {
            VideoFrameContent::External(e) => Ok(&e.method),
            _ => Err(ContentError::NotExternal),
        }
    }

    pub fn get_location(&self) -> (r: Result<&Option<String>, ContentError>)
        ensures
            match r {
                Ok(l) => self@ is External && (match l {
                    Some(s) => self@->External_0.location == Some(s@),
                    None => self@->External_0.location is None,
                }),
                Err(e) => !(self@ is External) && e == ContentError::NotExternal,
            },
    {
        match self {
            VideoFrameContent::External(e) => Ok(&e.location),
            _ => Err(ContentError::NotExternal),
        }
    }
}

/// How the frame's encoded stream was produced.
#[derive(Clone, Copy, Debug, PartialEq, Eq, Structural)]
pub enum VideoFrameTranscodingMethod {
    Copy,
    Encoded,
}

/// One step of the geometry history of a frame.
#[derive(Clone, Copy, Debug, PartialEq, Eq, Structural)]
pub enum VideoFrameTransformation {
    InitialSize(u64, u64),
    ResultingSize(u64, u64),
    Scale(u64, u64),
    Padding(u64, u64, u64, u64),
}

impl VideoFrameTransformation {
    pub fn initial_size(width: i64, height: i64) -> (r: VideoFrameTransformation)
        requires
            0 < width,
            0 < height,
        ensures
            r == VideoFrameTransformation::InitialSize(width as u64, height as u64),
    {
        VideoFrameTransformation::InitialSize(width as u64, height as u64)
    }

    pub fn resulting_size(width: i64, height: i64) -> (r: VideoFrameTransformation)
        requires
            0 < width,
            0 < height,
        ensures
            r == VideoFrameTransformation::ResultingSize(width as u64, height as u64),
    {
        VideoFrameTransformation::ResultingSize(width as u64, height as u64)
    }

    pub fn scale(width: i64, height: i64) -> (r: VideoFrameTransformation)
        requires
            0 < width,
            0 < height,
        ensures
            r == VideoFrameTransformation::Scale(width as u64, height as u64),
    {
        VideoFrameTransformation::Scale(width as u64, height as u64)
    }

    pub fn padding(left: i64, top: i64, right: i64, bottom: i64) -> (r: VideoFrameTransformation)
        requires
            0 <= left,
            0 <= top,
            0 <= right,
            0 <= bottom,
        ensures
            r == VideoFrameTransformation::Padding(
                left as u64,
                top as u64,
                right as u64,
                bottom as u64,
            ),
    {
        VideoFrameTransformation::Padding(left as u64, top as u64, right as u64, bottom as u64)
    }

    pub fn is_initial_size(&self) -> (r: bool)
        ensures
            r == (*self is InitialSize),
    {
        match self {
            VideoFrameTransformation::InitialSize(_, _) => true,
            _ => false,
        }
    }

    pub fn is_resulting_size(&self) -> (r: bool)
        ensures
            r == (*self is ResultingSize),
    {
        match self {
            VideoFrameTransformation::ResultingSize(_, _) => true,
            _ => false,
        }
    }

    pub fn is_scale(&self) -> (r: bool)
        ensures
            r == (*self is Scale),
    {
        match self {
            VideoFrameTransformation::Scale(_, _) => true,
            _ => false,
        }
    }

    pub fn is_padding(&self) -> (r: bool)
        ensures
            r == (*self is Padding),
    {
        match self {
            VideoFrameTransformation::Padding(_, _, _, _) => true,
            _ => false,
        }
    }

    pub fn as_initial_size(&self) -> (r: Option<(u64, u64)>)
        ensures
            match r {
                Some(p) => *self == VideoFrameTransformation::InitialSize(p.0, p.1),
                None => !(*self is InitialSize),
            },
    {
        match self {
            VideoFrameTransformation::InitialSize(w, h) => Some((*w, *h)),
            _ => None,
        }
    }

    pub fn as_resulting_size(&self) -> (r: Option<(u64, u64)>)
        ensures
            match r {
                Some(p) => *self == VideoFrameTransformation::ResultingSize(p.0, p.1),
                None => !(*self is ResultingSize),
            },
    {
        match self {
            VideoFrameTransformation::ResultingSize(w, h) => Some((*w, *h)),
            _ => None,
        }
    }

    pub fn as_scale(&self) -> (r: Option<(u64, u64)>)
        ensures
            match r {
                Some(p) => *self == VideoFrameTransformation::Scale(p.0, p.1),
                None => !(*self is Scale),
            },
    {
        match self {
            VideoFrameTransformation::Scale(w, h) => Some((*w, *h)),
            _ => None,
        }
    }

    pub fn as_padding(&self) -> (r: Option<(u64, u64, u64, u64)>)
        ensures
            match r {
                Some(p) => *self == VideoFrameTransformation::Padding(p.0, p.1, p.2, p.3),
                None => !(*self is Padding),
            },
    {
        match self {
            VideoFrameTransformation::Padding(l, t, rr, b) => Some((*l, *t, *rr, *b)),
            _ => None,
        }
    }
}

} // verus!
