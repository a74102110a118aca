//! Zombie types of the game.
use vstd::prelude::*;

verus! {

/// The zombie types, in the game's own order.
#[derive(Clone, Copy, PartialEq, Eq, Structural, Debug, Hash)]
pub enum ZombieType {
    Regular,
    DCFast,
    DCSlow,
    Flag,
    Conehead,
    PoleVaulting,
    Buckethead,
    Newspaper,
    ScreenDoor,
    Football,
    Dancing,
    Snorkel,
    Zomboni,
    DolphinRider,
    JackInTheBox,
    Balloon,
    Digger,
    Pogo,
    Ladder,
    Catapult,
    Gargantuar,
    GigaGargantuar,
}

} // verus!
