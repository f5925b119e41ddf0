//! Frames: an image with its keypoints and one descriptor per keypoint,
//! numbered in the order they are made.
use vstd::prelude::*;

verus! {

/// Why a frame could not be made.
#[derive(Clone, Copy, Debug, PartialEq, Eq, Structural)]
pub enum FrameError {
    /// No keypoint was found where at least one was required.
    NoKeypointsFound,
    /// The keypoints and descriptors differ in number.
    DescriptorCountMismatch,
    /// Every frame number has been given out.
    IdsExhausted,
}

/// An image, its keypoints and their descriptors (same number, same order),
/// with the frame's number. Not changed once made.
pub struct Frame<I, K, D> {
    id: usize,
    image: I,
    keypoints: Vec<K>,
    descriptors: Vec<D>,
}

impl<I, K, D> Frame<I, K, D> {
    pub closed spec fn spec_id(&self) -> usize {
        self.id
    }

    pub closed spec fn spec_image(&self) -> I {
        self.image
    }

    pub closed spec fn spec_keypoints(&self) -> Seq<K> {
        self.keypoints@
    }

    pub closed spec fn spec_descriptors(&self) -> Seq<D> {
        self.descriptors@
    }

    #[verifier::type_invariant]
    spec fn paired(&self) -> bool {
        self.keypoints@.len() == self.descriptors@.len()
    }

    /// A frame, when there is one descriptor per keypoint.
    pub fn new(id: usize, image: I, keypoints: Vec<K>, descriptors: Vec<D>) -> (r: Option<Self>)
        ensures
            r.is_some() <==> keypoints@.len() == descriptors@.len(),
            r matches Some(f) ==> f.spec_id() == id && f.spec_image() == image
                && f.spec_keypoints() == keypoints@ && f.spec_descriptors() == descriptors@,
    {
        if keypoints.len() == descriptors.len() {
            Some(Frame { id, image, keypoints, descriptors })
        } else {
            None
        }
    }

    pub fn id(&self) -> (r: usize)
        ensures
            r == self.spec_id(),
    {
        self.id
    }

    pub fn image(&self) -> (r: &I)
        ensures
            *r == self.spec_image(),
    {
        &self.image
    }

    pub fn keypoints(&self) -> (r: &Vec<K>)
        ensures
            r@ == self.spec_keypoints(),
            r@.len() == self.spec_descriptors().len(),
    {
        proof {
            use_type_invariant(self);
        }
        &self.keypoints
    }

    pub fn descriptors(&self) -> (r: &Vec<D>)
        ensures
            r@ == self.spec_descriptors(),
            r@.len() == self.spec_keypoints().len(),
    {
        proof {
            use_type_invariant(self);
        }
        &self.descriptors
    }
}

/// Hands out frame numbers `0, 1, 2, ...`, each once.
pub struct FrameCounter {
    next: usize,
}

impl FrameCounter {
    /// The number the next frame gets.
    pub closed spec fn spec_next(&self) -> nat {
        self.next as nat
    }

    pub fn new() -> (r: Self)
        ensures
            r.spec_next() == 0,
    {
        FrameCounter { next: 0 }
    }

    /// The number the next frame gets.
    pub fn peek(&self) -> (r: usize)
        ensures
            r == self.spec_next(),
    {
        self.next
    }

    /// Gives out the next frame number, or `None` once all have been given.
    pub fn next_id(&mut self) -> (r: Option<usize>)
        ensures
            match r {
                Some(id) => id == old(self).spec_next() && final(self).spec_next() == id + 1,
                None => old(self).spec_next() == usize::MAX && final(self).spec_next()
                    == old(self).spec_next(),
            },
    {
        if self.next == usize::MAX {
            None
        } else {
            let id = self.next;
            self.next = self.next + 1;
            Some(id)
        }
    }

    /// Makes a frame from what a detector found in `image`, numbered with the
    /// next frame number. It fails when keypoints and descriptors differ in
    /// number, when `require_keypoints` is set and there is no keypoint, or
    /// when frame numbers are exhausted; only a frame that is made uses up a
    /// number.
    pub fn make_frame<I, K, D>(
        &mut self,
        image: I,
        keypoints: Vec<K>,
        descriptors: Vec<D>,
        require_keypoints: bool,
    ) -> (r: Result<Frame<I, K, D>, FrameError>)
        ensures
            keypoints@.len() != descriptors@.len() ==> r == Err::<Frame<I, K, D>, FrameError>(
                FrameError::DescriptorCountMismatch,
            ),
            keypoints@.len() == descriptors@.len() && require_keypoints && keypoints@.len() == 0
                ==> r == Err::<Frame<I, K, D>, FrameError>(FrameError::NoKeypointsFound),
            keypoints@.len() == descriptors@.len() && !(require_keypoints && keypoints@.len() == 0)
                && old(self).spec_next() == usize::MAX ==> r == Err::<Frame<I, K, D>, FrameError>(
                FrameError::IdsExhausted,
            ),
            keypoints@.len() == descriptors@.len() && !(require_keypoints && keypoints@.len() == 0)
                && old(self).spec_next() < usize::MAX ==> (r matches Ok(f) && f.spec_id()
                == old(self).spec_next() && f.spec_image() == image && f.spec_keypoints()
                == keypoints@ && f.spec_descriptors() == descriptors@),
            r matches Ok(f) ==> f.spec_id() == old(self).spec_next() && f.spec_image() == image
                && f.spec_keypoints() == keypoints@ && f.spec_descriptors() == descriptors@,
            r is Ok ==> final(self).spec_next() == old(self).spec_next() + 1,
            r is Err ==> final(self).spec_next() == old(self).spec_next(),
    {
        if keypoints.len() != descriptors.len() {
            return Err(FrameError::DescriptorCountMismatch);
        }
        if require_keypoints && keypoints.len() == 0 {
            return Err(FrameError::NoKeypointsFound);
        }
        match self.next_id() {
            None => Err(FrameError::IdsExhausted),
            Some(id) => Ok(Frame { id, image, keypoints, descriptors }),
        }
    }
}

} // verus!
