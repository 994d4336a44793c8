use vstd::prelude::*;

verus! {

/// Pause between frames, in milliseconds, to hold the loop near 60 frames a second.
pub const FRAME_MILLIS: u64 = 1000 / 60;

/// The render loop's own state: the frame counter handed to the module, and
/// whether the loop goes on.
pub struct Driver {
    counter: i32,
    running: bool,
}

impl View for Driver {
    type V = (int, bool);

    closed spec fn view(&self) -> (int, bool) {
        (self.counter as int, self.running)
    }
}

/// The counter after a frame: one more, held at the largest `i32` rather than
/// wrapping, so that it never goes back.
pub open spec fn next_counter(counter: int) -> int {
    if counter < i32::MAX { counter + 1 } else { counter }
}

impl Driver {
    pub fn new() -> (r: Driver)
        ensures
            r@ == (0int, true),
    {
        Driver { counter: 0, running: true }
    }

    pub fn is_running(&self) -> (r: bool)
        ensures
            r == self@.1,
    {
        self.running
    }

    /// The counter for the frame about to be drawn; the next frame gets a
    /// larger one, up to the largest `i32`.
    pub fn next_frame(&mut self) -> (r: i32)
        ensures
            r as int == old(self)@.0,
            final(self)@ == (next_counter(old(self)@.0), old(self)@.1),
    {
        let c = self.counter;
        if self.counter < i32::MAX {
            self.counter = self.counter + 1;
        }
        c
    }

    /// Ends the loop after the current frame, on an interrupt or a closed window.
    pub fn stop(&mut self)
        ensures
            final(self)@ == (old(self)@.0, false),
    {
        self.running = false;
    }
}

} // verus!
