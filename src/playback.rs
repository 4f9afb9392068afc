use vstd::prelude::*;

verus! {

/// Key code that ends the frame loop (escape).
pub const EXIT_KEY: i32 = 27;

/// Position of the frame loop in a video source that is played over and over.
pub struct Playback {
    frame_counter: u64,
    total_frames: u64,
}

impl Playback {
    pub closed spec fn counter(&self) -> nat {
        self.frame_counter as nat
    }

    pub closed spec fn total(&self) -> nat {
        self.total_frames as nat
    }

    /// The counter never runs past the end, except for the one frame shown
    /// from a source that reports no frames at all.
    pub closed spec fn wf(&self) -> bool {
        self.frame_counter <= self.total_frames || self.frame_counter == 1
    }

    /// A loop at the start of a source that reports `total_frames` frames.
    pub fn new(total_frames: u64) -> (r: Playback)
        ensures
            r.wf(),
            r.counter() == 0,
            r.total() == total_frames,
    {
        Playback { frame_counter: 0, total_frames }
    }

    /// Frames shown since the source was last rewound.
    pub fn frame_counter(&self) -> (r: u64)
        ensures
            r == self.counter(),
    {
        self.frame_counter
    }

    /// Frames the source reported.
    pub fn total_frames(&self) -> (r: u64)
        ensures
            r == self.total(),
    {
        self.total_frames
    }

    /// Called before each acquisition. Once the counter has reached the
    /// number of frames, the source must be rewound (the result is `true`)
    /// and the counter restarts at zero; the acquisition then reads the frame
    /// at index `frame_counter()`.
    pub fn begin_frame(&mut self) -> (rewind: bool)
        requires
            old(self).wf(),
        ensures
            final(self).wf(),
            rewind == (old(self).counter() >= old(self).total()),
            final(self).total() == old(self).total(),
            final(self).counter() == if rewind { 0 } else { old(self).counter() },
            final(self).counter() < final(self).total() || final(self).counter() == 0,
    {
        if self.frame_counter >= self.total_frames {
            self.frame_counter = 0;
            true
        } else {
            false
        }
    }

    /// Called after a frame was read and shown: the counter moves on, up to
    /// the number of frames. A failed read leaves the counter as it is, so the
    /// same position is tried again.
    pub fn frame_shown(&mut self)
        requires
            old(self).wf(),
            old(self).counter() < old(self).total() || old(self).counter() == 0,
        ensures
            final(self).wf(),
            final(self).total() == old(self).total(),
            final(self).counter() == old(self).counter() + 1,
    {
        self.frame_counter = self.frame_counter + 1;
    }
}

/// Whether a key code read from the display ends the frame loop.
pub fn is_exit_key(key: i32) -> (r: bool)
    ensures
        r == (key == EXIT_KEY),
{
    key == EXIT_KEY
}

} // verus!
