//! The player steering decision.
//!
//! The physical application of the movement (normalising the direction
//! and scaling by the player's speed) is floating-point work done by the
//! host around this decision.
use vstd::prelude::*;

use crate::components::Render;

verus! {

/// Which movement keys are held this frame.
#[derive(Clone, Copy, PartialEq, Eq, Structural, Debug)]
pub struct InputState {
    pub right: bool,
    pub left: bool,
    pub up: bool,
    pub down: bool,
}

/// Decide the player's movement intent for one frame: one unit along
/// each axis per held key, opposite keys cancelling; and face the
/// sprite along the horizontal movement, keeping the old facing when
/// there is none.
pub fn player_control(input: InputState, ren: &mut Render) -> (mv: (i32, i32))
    ensures
        mv.0 == (if input.right {
            1int
        } else {
            0int
        }) - (if input.left {
            1int
        } else {
            0int
        }),
        mv.1 == (if input.up {
            1int
        } else {
            0int
        }) - (if input.down {
            1int
        } else {
            0int
        }),
        *final(ren) == (Render {
            flip_x: if mv.0 > 0 {
                false
            } else if mv.0 < 0 {
                true
            } else {
                old(ren).flip_x
            },
            ..*old(ren)
        }),
{
    let mut x_move: i32 = 0;
    let mut y_move: i32 = 0;
    if input.right {
        x_move = x_move + 1;
    }
    if input.left {
        x_move = x_move - 1;
    }
    if input.up {
        y_move = y_move + 1;
    }
    if input.down {
        y_move = y_move - 1;
    }
    if x_move > 0 {
        ren.flip_x = false;
    } else if x_move < 0 {
        ren.flip_x = true;
    }
    (x_move, y_move)
}

} // verus!
