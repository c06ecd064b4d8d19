use vstd::prelude::*;
use crate::arena::Handle;
use crate::bindable::Team;
use crate::entity::Entity;
use crate::hit::HitProperties;

verus! {

/// How a spell asks for the tiles it attacks to be highlighted.
#[derive(PartialEq, Eq, Structural, Clone, Copy, Debug)]
pub enum TileHighlight {
    Off,
    Flash,
    Automatic,
}

/// The spell side of an attacking entity.
#[derive(PartialEq, Eq, Structural, Clone, Copy, Debug)]
pub struct Spell {
    pub hit_props: HitProperties,
    pub requested_highlight: TileHighlight,
}

/// One attack on one tile during the current frame.
#[derive(PartialEq, Eq, Structural, Clone, Copy, Debug)]
pub struct AttackBox {
    pub attacker_id: Handle,
    pub team: Team,
    pub x: i32,
    pub y: i32,
    pub props: HitProperties,
    pub highlight: bool,
}

impl AttackBox {
    /// The attack of `entity`'s spell on the tile `(x, y)`.
    pub fn new_from(x: i32, y: i32, entity: &Entity, spell: &Spell) -> (r: AttackBox)
        ensures
            r.attacker_id == entity.id,
            r.team == entity.team,
            r.x == x && r.y == y,
            r.props == spell.hit_props,
            r.highlight == (spell.requested_highlight == TileHighlight::Automatic),
    {
        AttackBox {
            attacker_id: entity.id,
            team: entity.team,
            x,
            y,
            props: spell.hit_props,
            highlight: spell.requested_highlight == TileHighlight::Automatic,
        }
    }
}

} // verus!
