use vstd::prelude::*;

use crate::preprocess::Frame;

verus! {

/// The single-slot mailbox between the frame producer and the detection
/// cycle: a new frame replaces the one held, and a cycle reads the latest.
pub struct FrameSlot {
    latest: Option<Frame>,
}

impl FrameSlot {
    pub closed spec fn held(&self) -> Option<Frame> {
        self.latest
    }

    pub fn new() -> (r: FrameSlot)
        ensures
            r.held() is None,
    {
        FrameSlot { latest: None }
    }

    /// Keeps `frame` in place of whatever was held (last write wins).
    pub fn store(&mut self, frame: Frame)
        ensures
            final(self).held() == Some(frame),
    {
        self.latest = Some(frame);
    }

    /// The latest frame stored, if any has arrived.
    pub fn latest(&self) -> (r: Option<&Frame>)
        ensures
            match self.held() {
                Some(f) => r == Some(&f),
                None => r is None,
            },
    {
        match &self.latest {
            Some(f) => Some(f),
            None => None,
        }
    }
}

} // verus!
