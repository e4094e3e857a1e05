//! The plain data the player carries.

use vstd::prelude::*;

verus! {

/// Points collected in the running level.
#[derive(Clone, Copy, Debug, PartialEq, Eq, Structural)]
pub struct XP(pub u16);

/// Lives left in the running level.
#[derive(Clone, Copy, Debug, PartialEq, Eq, Structural)]
pub struct Health(pub u8);

/// Whether the player rests on ground and may jump.
#[derive(Clone, Copy, Debug, PartialEq, Eq, Structural)]
pub struct IsGround(pub bool);

/// The points, lives and ground flag of a player entering a level: no
/// points, three lives, not on the ground.
pub fn player_start() -> (res: (XP, Health, IsGround))
    ensures
        res.0 == XP(0),
        res.1 == Health(3),
        res.2 == IsGround(false),
{
    (XP(0), Health(3), IsGround(false))
}

} // verus!
