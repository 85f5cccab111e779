//! The hand-off of frames from the page loader to the renderer: the newest
//! frame waits in a slot, flagged as new until the renderer takes it.

use vstd::prelude::*;

verus! {

/// The newest frame and whether the renderer has yet to take it.
pub struct FrameSlot<T> {
    frame: Option<T>,
    dirty: bool,
}

impl<T> FrameSlot<T> {
    /// The newest frame, if any arrived.
    pub closed spec fn latest(&self) -> Option<T> {
        self.frame
    }

    /// True when the newest frame has not been taken yet.
    pub closed spec fn is_dirty(&self) -> bool {
        self.dirty
    }

    #[verifier::type_invariant]
    closed spec fn well_formed(&self) -> bool {
        self.dirty ==> self.frame is Some
    }
}

impl<T: Clone> FrameSlot<T> {
    /// An empty slot.
    pub fn new() -> (r: FrameSlot<T>)
        ensures
            r.latest() is None,
            !r.is_dirty(),
    {
        FrameSlot { frame: None, dirty: false }
    }

    /// Stores a new frame, replacing any earlier one, and flags it as new.
    pub fn update_frame(&mut self, frame: T)
        ensures
            final(self).latest() == Some(frame),
            final(self).is_dirty(),
    {
        self.frame = Some(frame);
        self.dirty = true;
    }

    /// A copy of the newest frame when it is new, which then stops being new;
    /// `None`, with the slot unchanged, when there is no new frame. So each
    /// frame is handed out at most once.
    pub fn get_frame_if_dirty(&mut self) -> (r: Option<T>)
        ensures
            !old(self).is_dirty() ==> r is None,
            final(self).latest() == old(self).latest(),
            !final(self).is_dirty(),
            old(self).is_dirty() ==> (r matches Some(f) && old(self).latest() matches Some(g) && cloned(g, f)),
    {
        proof {
            use_type_invariant(&*self);
        }
        if !self.dirty {
            return None;
        }
        self.dirty = false;
        match &self.frame {
            Some(f) => Some(f.clone()),
            None => None,
        }
    }
}

} // verus!
