//! Directional input and the axis directions it asks for.

use vstd::prelude::*;

verus! {

#[derive(Debug, Clone, Copy, PartialEq, Eq, Structural)]
pub struct InputState {
    pub up: bool,
    pub down: bool,
    pub left: bool,
    pub right: bool,
}

/// The unit steps along x and y that an input asks for, before normalization:
/// right minus left, and up minus down.
pub open spec fn axes_spec(input: InputState) -> (int, int) {
    (
        (if input.right {
            1int
        } else {
            0
        }) - (if input.left {
            1int
        } else {
            0
        }),
        (if input.up {
            1int
        } else {
            0
        }) - (if input.down {
            1int
        } else {
            0
        }),
    )
}

/// The direction an input asks for, one of -1, 0 and 1 on each axis.
pub fn movement_axes(input: InputState) -> (axes: (i8, i8))
    ensures
        axes.0 == axes_spec(input).0,
        axes.1 == axes_spec(input).1,
        -1 <= axes.0 <= 1,
        -1 <= axes.1 <= 1,
{
    let mut dx: i8 = 0;
    let mut dy: i8 = 0;
    if input.up {
        dy += 1;
    }
    if input.down {
        dy -= 1;
    }
    if input.left {
        dx -= 1;
    }
    if input.right {
        dx += 1;
    }
    (dx, dy)
}

} // verus!
