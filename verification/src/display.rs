//! The monochrome 64x32 framebuffer and its XOR-compositing primitive.

use vstd::prelude::*;

verus! {

/// Width of the framebuffer in pixels.
pub const FB_WIDTH: usize = 64;

/// Height of the framebuffer in pixels.
pub const FB_HEIGHT: usize = 32;

/// Total number of pixels in the framebuffer.
pub const FB_LEN: usize = 2048;

/// Index into the flat pixel sequence of the cell that `(x, y)` lands on
/// after wrapping modulo the framebuffer dimensions.
pub open spec fn pix_index(x: int, y: int) -> int {
    (y % 32) * 64 + (x % 64)
}

/// The framebuffer after XOR-toggling the pixel that `(x, y)` wraps to.
pub open spec fn fb_toggle(fb: Seq<bool>, x: int, y: int) -> Seq<bool> {
    fb.update(pix_index(x, y), !fb[pix_index(x, y)])
}

/// An all-clear framebuffer.
pub open spec fn blank_fb() -> Seq<bool> {
    Seq::new(2048, |i: int| false)
}

/// The 64x32 binary framebuffer. Row-major: pixel `(x, y)` lives at
/// index `y * 64 + x`.
pub struct Display {
    buffer: Vec<bool>,
}

impl View for Display {
    type V = Seq<bool>;

    closed spec fn view(&self) -> Seq<bool> {
        self.buffer@
    }
}

impl Display {
    pub fn new() -> (d: Display)
        ensures
            d@ == blank_fb(),
    {
        let mut buffer: Vec<bool> = Vec::new();
        let mut i: usize = 0;
        while i < 2048
            invariant
                i <= 2048,
                buffer@.len() == i,
                forall|j: int| 0 <= j < i ==> !buffer@[j],
            decreases 2048 - i,
        {
            buffer.push(false);
            i = i + 1;
        }
        proof {
            assert(buffer@ =~= blank_fb());
        }
        Display { buffer }
    }

    /// XOR-toggle the pixel that `(x, y)` wraps to; the result says whether
    /// the toggle turned an already-set pixel off (a sprite collision).
    pub fn set_pixel(&mut self, x: usize, y: usize) -> (turned_off: bool)
        requires
            old(self)@.len() == 2048,
        ensures
            final(self)@ == fb_toggle(old(self)@, x as int, y as int),
            turned_off == old(self)@[pix_index(x as int, y as int)],
    {
        let xi = x % 64;
        let yi = y % 32;
        let pos = yi * 64 + xi;
        let was_on = self.buffer[pos];
        self.buffer.set(pos, !was_on);
        was_on
    }

    pub fn clear(&mut self)
        requires
            old(self)@.len() == 2048,
        ensures
            final(self)@ == blank_fb(),
    {
        let mut i: usize = 0;
        while i < 2048
            invariant
                self.buffer@.len() == 2048,
                i <= 2048,
                forall|j: int| 0 <= j < i ==> !self.buffer@[j],
            decreases 2048 - i,
        {
            self.buffer.set(i, false);
            i = i + 1;
        }
        proof {
            assert(self.buffer@ =~= blank_fb());
        }
    }

    pub fn pixel(&self, x: usize, y: usize) -> (on: bool)
        requires
            self@.len() == 2048,
            x < 64,
            y < 32,
        ensures
            on == self@[y as int * 64 + x as int],
    {
        self.buffer[y * 64 + x]
    }
}

} // verus!
