use vstd::prelude::*;

verus! {

/// The semantic category of a collision shape, fixed when the shape is made.
#[derive(PartialEq, Eq, Structural, Debug, Clone, Copy)]
pub enum ObjectData {
    Ground,
    Player,
    Enemy,
    Bullet,
    Barrel,
}

} // verus!
