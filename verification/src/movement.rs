//! Steering: from the arrow keys that are held down to a walking direction.

use vstd::prelude::*;

verus! {

/// Which of the four arrow keys are held down in the current frame.
#[derive(Clone, Copy, Debug, PartialEq, Eq, Structural)]
pub struct ArrowKeys {
    pub up: bool,
    pub down: bool,
    pub left: bool,
    pub right: bool,
}

/// A walking direction on the ground plane, before it is scaled to unit
/// length. `x` points to the right and `z` towards the viewer; there is no
/// vertical component. Each component is -1, 0 or 1.
#[derive(Clone, Copy, Debug, PartialEq, Eq, Structural)]
pub struct Direction {
    pub x: i8,
    pub z: i8,
}

/// The contribution of a pair of opposite keys to one axis: each held key
/// pulls one step its own way, so two held keys cancel.
pub open spec fn axis(negative: bool, positive: bool) -> int {
    (if positive { 1int } else { 0int }) - (if negative { 1int } else { 0int })
}

/// The direction that a set of held keys asks for: left and right act on
/// `x`, up and down on `z`, with up pointing away from the viewer.
pub open spec fn direction_of(keys: ArrowKeys) -> (int, int) {
    (axis(keys.left, keys.right), axis(keys.up, keys.down))
}

impl Direction {
    /// The direction as a pair of mathematical integers.
    pub open spec fn view(&self) -> (int, int) {
        (self.x as int, self.z as int)
    }
}

fn axis_step(negative: bool, positive: bool) -> (step: i8)
    ensures
        step == axis(negative, positive),
{
    let mut step: i8 = 0;
    if negative {
        step = step - 1;
    }
    if positive {
        step = step + 1;
    }
    step
}

/// Turns the held arrow keys into the direction the player wants to walk in.
pub fn player_movement(keys: ArrowKeys) -> (direction: Direction)
    ensures
        direction@ == direction_of(keys),
{
    Direction { x: axis_step(keys.left, keys.right), z: axis_step(keys.up, keys.down) }
}

/// Every component of a requested direction is -1, 0 or 1, so a direction
/// is at rest, along an axis, or on a diagonal.
pub proof fn lemma_direction_bounds(keys: ArrowKeys)
    ensures
        -1 <= direction_of(keys).0 <= 1,
        -1 <= direction_of(keys).1 <= 1,
{
}

/// The right arrow alone on its axis asks for movement towards positive
/// `x`, the left arrow alone towards negative `x`; likewise down asks for
/// positive `z` and up for negative `z`.
pub proof fn lemma_single_key_sign(keys: ArrowKeys)
    ensures
        keys.right && !keys.left ==> direction_of(keys).0 == 1,
        keys.left && !keys.right ==> direction_of(keys).0 == -1,
        keys.down && !keys.up ==> direction_of(keys).1 == 1,
        keys.up && !keys.down ==> direction_of(keys).1 == -1,
{
}

/// Opposite keys cancel: an axis is at rest exactly when both of its keys
/// are in the same state.
pub proof fn lemma_opposite_keys_cancel(keys: ArrowKeys)
    ensures
        direction_of(keys).0 == 0 <==> keys.left == keys.right,
        direction_of(keys).1 == 0 <==> keys.up == keys.down,
{
}

} // verus!
