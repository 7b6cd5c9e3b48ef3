use vstd::prelude::*;

verus! {

/// Largest frame of a speed-test body.
pub const MAX_FRAME: usize = 65535;

/// A body of `total` zero bytes, handed out in frames of at most [`MAX_FRAME`] bytes.
pub struct SpeedTest {
    pub total: usize,
    pub to_fill: usize,
}

impl SpeedTest {
    pub fn new(size: usize) -> (r: SpeedTest)
        ensures
            r.total == size,
            r.to_fill == size,
    {
        SpeedTest { total: size, to_fill: size }
    }

    /// Length of the next frame; zero at the end of the body.
    pub fn next_frame(&mut self) -> (n: usize)
        ensures
            n == if old(self).to_fill < MAX_FRAME { old(self).to_fill } else { MAX_FRAME },
            final(self).to_fill == old(self).to_fill - n,
            final(self).total == old(self).total,
    {
        let fill = if self.to_fill < MAX_FRAME { self.to_fill } else { MAX_FRAME };
        self.to_fill = self.to_fill - fill;
        fill
    }

    pub fn is_end_stream(&self) -> (r: bool)
        ensures
            r == (self.to_fill == 0),
    {
        self.to_fill == 0
    }

    /// The exact length of the whole body.
    pub fn size_hint(&self) -> (r: u64)
        ensures
            r == self.total,
    {
        self.total as u64
    }
}

} // verus!
