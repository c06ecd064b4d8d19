use vstd::prelude::*;
use crate::arena::Handle;
use crate::bindable::{Direction, Element, Team};
use crate::callback::Callback;
use crate::defense::DefenseRule;

verus! {

/// Strength rank of a character.
#[derive(PartialEq, Eq, Structural, Clone, Copy, Debug)]
pub enum CharacterRank {
    V1,
    V2,
    V3,
    SP,
    EX,
    Rare1,
    Rare2,
    NM,
}

/// What kind of battle participant an entity is.
#[derive(PartialEq, Eq, Structural, Clone, Copy, Debug)]
pub enum EntityKind {
    Character(CharacterRank),
    Player,
    Spell,
    Obstacle,
    Artifact,
}

/// The player an entity stands for.
#[derive(PartialEq, Eq, Structural, Clone, Copy, Debug)]
pub struct PlayerInfo {
    pub index: usize,
    pub local: bool,
}

/// Health and defenses of an entity that can take damage.
#[derive(Debug)]
pub struct Living {
    pub health: i32,
    pub max_health: i32,
    /// Kept in tier order; see `DefenseRule::add`.
    pub defense_rules: Vec<DefenseRule>,
    pub flinch_state: Option<String>,
}

/// `b` holds what `a` holds.
pub open spec fn same_living(a: Living, b: Living) -> bool {
    &&& a.health == b.health
    &&& a.max_health == b.max_health
    &&& a.defense_rules@ == b.defense_rules@
    &&& a.flinch_state == b.flinch_state
}

impl Clone for Living {
    fn clone(&self) -> (r: Living)
        ensures
            same_living(*self, r),
    {
        let defense_rules = self.defense_rules.clone();
        proof {
            assert(defense_rules@ =~= self.defense_rules@);
        }
        let flinch_state = match &self.flinch_state {
            Some(s) => Some(s.clone()),
            None => None,
        };
        Living { health: self.health, max_health: self.max_health, defense_rules, flinch_state }
    }
}

/// `b` holds what `a` holds.
pub open spec fn same_entity(a: Entity, b: Entity) -> bool {
    &&& a.id == b.id
    &&& a.kind == b.kind
    &&& a.name == b.name
    &&& a.element == b.element
    &&& a.x == b.x
    &&& a.y == b.y
    &&& a.team == b.team
    &&& a.facing == b.facing
    &&& a.animator == b.animator
    &&& a.card_action == b.card_action
    &&& a.pending_spawn == b.pending_spawn
    &&& a.spawned == b.spawned
    &&& a.on_field == b.on_field
    &&& a.erased == b.erased
    &&& a.deleted == b.deleted
    &&& a.updated == b.updated
    &&& a.auto_reserves_tiles == b.auto_reserves_tiles
    &&& a.ignore_hole_tiles == b.ignore_hole_tiles
    &&& a.ignore_tile_effects == b.ignore_tile_effects
    &&& a.share_tile == b.share_tile
    &&& a.spawn_callback == b.spawn_callback
    &&& a.battle_start_callback == b.battle_start_callback
    &&& a.delete_callback == b.delete_callback
    &&& a.delete_callbacks@ == b.delete_callbacks@
    &&& a.local_components@ == b.local_components@
    &&& a.living.is_some() == b.living.is_some()
    &&& a.living.is_some() ==> same_living(a.living.unwrap(), b.living.unwrap())
    &&& a.player == b.player
}

impl Clone for Entity {
    fn clone(&self) -> (r: Entity)
        ensures
            same_entity(*self, r),
    {
        let delete_callbacks = self.delete_callbacks.clone();
        let local_components = self.local_components.clone();
        proof {
            assert(delete_callbacks@ =~= self.delete_callbacks@);
            assert(local_components@ =~= self.local_components@);
        }
        let living = match &self.living {
            Some(l) => Some(l.clone()),
            None => None,
        };
        Entity {
            id: self.id,
            kind: self.kind,
            name: self.name.clone(),
            element: self.element,
            x: self.x,
            y: self.y,
            team: self.team,
            facing: self.facing,
            animator: self.animator,
            card_action: self.card_action,
            pending_spawn: self.pending_spawn,
            spawned: self.spawned,
            on_field: self.on_field,
            erased: self.erased,
            deleted: self.deleted,
            updated: self.updated,
            auto_reserves_tiles: self.auto_reserves_tiles,
            ignore_hole_tiles: self.ignore_hole_tiles,
            ignore_tile_effects: self.ignore_tile_effects,
            share_tile: self.share_tile,
            spawn_callback: self.spawn_callback,
            battle_start_callback: self.battle_start_callback,
            delete_callback: self.delete_callback,
            delete_callbacks,
            local_components,
            living,
            player: self.player,
        }
    }
}

impl Living {
    pub fn new(health: i32) -> (r: Living)
        ensures
            r.health == health,
            r.max_health == health,
            r.defense_rules@.len() == 0,
            r.flinch_state.is_none(),
    {
        Living { health, max_health: health, defense_rules: Vec::new(), flinch_state: None }
    }
}

/// One battle participant.
#[derive(Debug)]
pub struct Entity {
    pub id: Handle,
    pub kind: EntityKind,
    pub name: String,
    pub element: Element,
    pub x: i32,
    pub y: i32,
    pub team: Team,
    pub facing: Direction,
    pub animator: Handle,
    /// The synchronous card action holding this entity, if any.
    pub card_action: Option<Handle>,
    pub pending_spawn: bool,
    pub spawned: bool,
    pub on_field: bool,
    pub erased: bool,
    pub deleted: bool,
    pub updated: bool,
    pub auto_reserves_tiles: bool,
    pub ignore_hole_tiles: bool,
    pub ignore_tile_effects: bool,
    /// Whether the entity may stand on tiles reserved by others.
    pub share_tile: bool,
    pub spawn_callback: Option<Callback>,
    pub battle_start_callback: Option<Callback>,
    pub delete_callback: Option<Callback>,
    pub delete_callbacks: Vec<Callback>,
    pub local_components: Vec<Handle>,
    pub living: Option<Living>,
    pub player: Option<PlayerInfo>,
}

impl Entity {
    /// A fresh, unspawned entity of kind `kind` animated by `animator`.
    pub fn new(id: Handle, kind: EntityKind, animator: Handle) -> (r: Entity)
        ensures
            r.id == id,
            r.kind == kind,
            r.animator == animator,
            r.x == 0 && r.y == 0,
            r.team == Team::Unset,
            r.facing == Direction::Unset,
            r.card_action.is_none(),
            !r.pending_spawn && !r.spawned && !r.on_field,
            !r.erased && !r.deleted && !r.updated,
            !r.auto_reserves_tiles && !r.ignore_hole_tiles && !r.ignore_tile_effects && !r.share_tile,
            r.spawn_callback.is_none() && r.battle_start_callback.is_none(),
            r.delete_callback.is_none(),
            r.delete_callbacks@.len() == 0,
            r.local_components@.len() == 0,
            r.living.is_none(),
            r.player.is_none(),
    {
        Entity {
            id,
            kind,
            name: String::new(),
            element: Element::Neutral,
            x: 0,
            y: 0,
            team: Team::Unset,
            facing: Direction::Unset,
            animator,
            card_action: None,
            pending_spawn: false,
            spawned: false,
            on_field: false,
            erased: false,
            deleted: false,
            updated: false,
            auto_reserves_tiles: false,
            ignore_hole_tiles: false,
            ignore_tile_effects: false,
            share_tile: false,
            spawn_callback: None,
            battle_start_callback: None,
            delete_callback: None,
            delete_callbacks: Vec::new(),
            local_components: Vec::new(),
            living: None,
            player: None,
        }
    }
}

} // verus!
