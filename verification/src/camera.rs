//! Free-fly movement input. The camera itself works in floating point and
//! lives with the renderer; what stands here is which way the keys held this
//! frame ask to move.
use vstd::prelude::*;

verus! {

/// Per-frame movement input, gathered from the keyboard.
#[derive(Copy, Clone, Debug, Default, PartialEq, Eq, Structural)]
pub struct FlyInput {
    pub fwd: bool,
    pub back: bool,
    pub left: bool,
    pub right: bool,
    pub up: bool,
    pub down: bool,
    pub fast: bool,
}

/// `1` for a key held on the positive side only, `-1` for the negative side
/// only, `0` for neither or both.
pub open spec fn key_axis(positive: bool, negative: bool) -> i8 {
    if positive && !negative {
        1i8
    } else if negative && !positive {
        -1i8
    } else {
        0i8
    }
}

fn axis(positive: bool, negative: bool) -> (r: i8)
    ensures
        r == key_axis(positive, negative),
{
    if positive && !negative {
        1
    } else if negative && !positive {
        -1
    } else {
        0
    }
}

impl FlyInput {
    /// The requested direction in the camera's frame, one component per
    /// axis: along the flattened view direction, along its right-hand
    /// perpendicular, and straight up. Opposite keys cancel.
    pub fn axes(&self) -> (r: (i8, i8, i8))
        ensures
            r == (key_axis(self.fwd, self.back), key_axis(self.right, self.left), key_axis(self.up, self.down)),
    {
        (axis(self.fwd, self.back), axis(self.right, self.left), axis(self.up, self.down))
    }

    /// Whether these keys move the camera at all. The three axes are
    /// mutually perpendicular, so the camera moves exactly when one of them
    /// is non-zero.
    pub fn moves(&self) -> (r: bool)
        ensures
            r == (key_axis(self.fwd, self.back) != 0 || key_axis(self.right, self.left) != 0
                || key_axis(self.up, self.down) != 0),
    {
        let (f, s, u) = self.axes();
        f != 0 || s != 0 || u != 0
    }
}

} // verus!
