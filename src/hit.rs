use vstd::prelude::*;
use crate::bindable::Element;

verus! {

pub const NONE: u32 = 0x00000000;
pub const RETAIN_INTANGIBLE: u32 = 0x00000001;
pub const FREEZE: u32 = 0x00000002;
pub const PIERCE_INVIS: u32 = 0x00000004;
pub const FLINCH: u32 = 0x00000008;
pub const SHAKE: u32 = 0x00000010;
pub const PARALYZE: u32 = 0x00000020;
pub const FLASH: u32 = 0x00000040;
pub const PIERCE_GUARD: u32 = 0x00000080;
pub const IMPACT: u32 = 0x00000100;
pub const DRAG: u32 = 0x00000200;
pub const BUBBLE: u32 = 0x00000400;
pub const NO_COUNTER: u32 = 0x00000800;
pub const ROOT: u32 = 0x00001000;
pub const BLIND: u32 = 0x00002000;
pub const CONFUSE: u32 = 0x00004000;
pub const PIERCE_GROUND: u32 = 0x00008000;

/// What a hit does to its target.
#[derive(PartialEq, Eq, Structural, Clone, Copy, Debug)]
pub struct HitProperties {
    pub damage: i32,
    pub flags: u32,
    pub element: Element,
    pub secondary_element: Element,
}

impl Default for HitProperties {
    fn default() -> (r: HitProperties)
        ensures
            r.damage == 0 && r.flags == NONE && r.element == Element::Neutral
                && r.secondary_element == Element::Neutral,
    {
        HitProperties {
            damage: 0,
            flags: NONE,
            element: Element::Neutral,
            secondary_element: Element::Neutral,
        }
    }
}

} // verus!
