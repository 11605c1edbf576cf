//! Player input rules.
use vstd::prelude::*;

verus! {

/// Horizontal direction chosen from the arrow keys: `-1` for left, `1` for
/// right, `0` for none. Left wins when both keys are held.
pub open spec fn spec_keyboard_direction(left_pressed: bool, right_pressed: bool) -> i8 {
    if left_pressed {
        -1i8
    } else if right_pressed {
        1i8
    } else {
        0i8
    }
}

/// Sign of the player's horizontal velocity for the keys held this frame.
pub fn player_keyboard_direction(left_pressed: bool, right_pressed: bool) -> (dir: i8)
    ensures
        dir == spec_keyboard_direction(left_pressed, right_pressed),
        -1 <= dir <= 1,
{
    if left_pressed {
        -1
    } else if right_pressed {
        1
    } else {
        0
    }
}

/// Signs of the horizontal offsets (relative to the player's centre) of the
/// lasers fired this frame, in the order they are spawned.
pub open spec fn spec_fire_sides(player_present: bool, fire_just_pressed: bool) -> Seq<i8> {
    if player_present && fire_just_pressed {
        seq![1i8, -1i8]
    } else {
        Seq::empty()
    }
}

/// Lasers the player fires this frame: when there is exactly one player and
/// the fire key was just pressed, one laser on the right of the ship and one
/// on the left (offset signs `1` then `-1`); otherwise none.
pub fn player_fire(player_present: bool, fire_just_pressed: bool) -> (sides: Vec<i8>)
    ensures
        sides@ == spec_fire_sides(player_present, fire_just_pressed),
{
    let mut sides: Vec<i8> = Vec::new();
    if player_present && fire_just_pressed {
        sides.push(1);
        sides.push(-1);
    }
    sides
}

} // verus!
