use vstd::prelude::*;
use vstd::set_lib::lemma_len_subset;
use crate::animator::{Animator, Frame, find_state, lemma_same_animator_wf, same_animator};
use crate::arena::{Handle, Store};
use crate::attack_box::AttackBox;
use crate::bindable::{Direction, Team};
use crate::callback::{Callback, optional};
use crate::card_action::{CardAction, same_action};
use crate::component::{Component, ComponentLifetime};
use crate::defense::{DefenseJudge, DefensePriority, DefenseRule, added, removed};
use crate::entity::{CharacterRank, Entity, EntityKind, Living, PlayerInfo, same_entity};
use crate::field::{Field, in_bounds, is_edge, same_field, tile_index};

verus! {

/// A tile position.
#[derive(PartialEq, Eq, Structural, Clone, Copy, Debug)]
pub struct TilePosition {
    pub x: i32,
    pub y: i32,
}

/// What one player holds down during a frame, one bit per input.
#[derive(PartialEq, Eq, Structural, Clone, Copy, Debug)]
pub struct PlayerInput {
    pub held: u32,
}

/// Columns and rows of the battle field.
pub const FIELD_COLS: usize = 8;

pub const FIELD_ROWS: usize = 5;

/// Where the players of a battle of `count` players start.
pub open spec fn default_layout(count: int) -> Seq<TilePosition> {
    if count <= 1 {
        seq![TilePosition { x: 2, y: 2 }]
    } else if count == 2 {
        seq![TilePosition { x: 2, y: 2 }, TilePosition { x: 5, y: 2 }]
    } else if count == 3 {
        seq![TilePosition { x: 2, y: 2 }, TilePosition { x: 4, y: 3 }, TilePosition { x: 6, y: 1 }]
    } else {
        seq![
            TilePosition { x: 1, y: 3 },
            TilePosition { x: 3, y: 1 },
            TilePosition { x: 4, y: 3 },
            TilePosition { x: 6, y: 1 },
        ]
    }
}

/// Whether entity `e` is counted on tile `t` of a field `cols` wide.
pub open spec fn counted(e: Entity, cols: usize, t: int) -> bool {
    e.spawned && tile_index(cols, e.x, e.y) == t
}

/// The spawned entities standing on tile `t`.
pub open spec fn occupants(m: Map<Handle, Entity>, cols: usize, t: int) -> Set<Handle> {
    m.dom().filter(|h: Handle| counted(m[h], cols, t))
}

proof fn lemma_occupants_finite(m: Map<Handle, Entity>, cols: usize, t: int)
    requires
        m.dom().finite(),
    ensures
        occupants(m, cols, t).finite(),
        occupants(m, cols, t).len() <= m.dom().len(),
{
    lemma_len_subset(occupants(m, cols, t), m.dom());
}

/// Storing `e` under `h` moves `h` in or out of the occupants of `t`.
proof fn lemma_occupants_insert(m: Map<Handle, Entity>, h: Handle, e: Entity, cols: usize, t: int)
    requires
        m.dom().finite(),
    ensures
        occupants(m.insert(h, e), cols, t).len() == occupants(m, cols, t).len() - (if m.contains_key(
            h,
        ) && counted(m[h], cols, t) {
            1int
        } else {
            0int
        }) + (if counted(e, cols, t) {
            1int
        } else {
            0int
        }),
{
    let a = occupants(m, cols, t);
    let b = occupants(m.insert(h, e), cols, t);
    lemma_occupants_finite(m, cols, t);
    lemma_occupants_finite(m.insert(h, e), cols, t);
    assert(b.remove(h) =~= a.remove(h));
    if a.contains(h) {
        assert(a.remove(h).len() == a.len() - 1);
    } else {
        assert(a.remove(h) =~= a);
    }
    if b.contains(h) {
        assert(b.remove(h).len() == b.len() - 1);
    } else {
        assert(b.remove(h) =~= b);
    }
}

/// Taking `h` out moves it out of the occupants of `t`.
proof fn lemma_occupants_remove(m: Map<Handle, Entity>, h: Handle, cols: usize, t: int)
    requires
        m.dom().finite(),
    ensures
        occupants(m.remove(h), cols, t).len() == occupants(m, cols, t).len() - (if m.contains_key(
            h,
        ) && counted(m[h], cols, t) {
            1int
        } else {
            0int
        }),
{
    let a = occupants(m, cols, t);
    let b = occupants(m.remove(h), cols, t);
    lemma_occupants_finite(m, cols, t);
    assert(b =~= a.remove(h));
    if a.contains(h) {
        assert(a.remove(h).len() == a.len() - 1);
    } else {
        assert(a.remove(h) =~= a);
    }
}

/// The battle: every arena the frame pipeline works on, and the pipeline.
pub struct BattleSimulation {
    pub battle_started: bool,
    pub inputs: Vec<PlayerInput>,
    pub time: u64,
    pub battle_time: u64,
    pub field: Field,
    pub entities: Store<Entity>,
    pub queued_attacks: Vec<AttackBox>,
    pub defense_judge: DefenseJudge,
    pub animators: Store<Animator>,
    pub card_actions: Store<CardAction>,
    pub components: Store<Component>,
    /// Callbacks waiting to run, oldest first.
    pub pending_callbacks: Vec<Callback>,
    pub local_player_id: Handle,
    pub player_spawn_positions: Vec<TilePosition>,
    pub perspective_flipped: bool,
    pub intro_complete: bool,
    pub stale: bool,
    pub exit: bool,
}

impl BattleSimulation {
    /// What each stored entity must satisfy.
    pub open spec fn entity_ok(&self, h: Handle) -> bool {
        let e = self.entities@[h];
        &&& e.id == h
        &&& e.spawned ==> in_bounds(self.field.cols, self.field.rows, e.x, e.y)
        &&& e.card_action.is_some() ==> self.holds(h, e.card_action.unwrap())
    }

    /// Entity `h` is held by the card action `a`: a live, synchronous action
    /// of its own.
    pub open spec fn holds(&self, h: Handle, a: Handle) -> bool {
        &&& self.card_actions@.contains_key(a)
        &&& self.card_actions@[a].entity == h
        &&& !self.card_actions@[a].spec_is_async()
        &&& !self.card_actions@[a].deleted
        &&& self.card_actions@[a].used
    }

    /// Every tile counts exactly the spawned entities standing on it.
    pub open spec fn occupancy_ok(&self) -> bool {
        forall|t: int|
            0 <= t < self.field.tiles@.len() ==> (#[trigger] self.field.tiles@[t]).entity_count
                == occupants(self.entities@, self.field.cols, t).len()
    }

    pub open spec fn wf(&self) -> bool {
        &&& self.field.wf()
        &&& self.entities@.dom().finite()
        &&& forall|h: Handle| #[trigger] self.entities@.contains_key(h) ==> self.entity_ok(h)
        &&& forall|k: Handle| #[trigger] self.animators@.contains_key(k) ==> self.animators@[k].wf()
        &&& self.occupancy_ok()
    }

    /// A battle of `player_count` players on an empty field.
    pub fn new(player_count: usize) -> (r: BattleSimulation)
        requires
            player_count >= 1,
        ensures
            r.wf(),
            r.time == 0 && r.battle_time == 0,
            !r.battle_started,
            r.inputs@.len() == player_count,
            r.field.cols == FIELD_COLS && r.field.rows == FIELD_ROWS,
            r.entities@ == Map::<Handle, Entity>::empty(),
            r.animators@ == Map::<Handle, Animator>::empty(),
            r.card_actions@ == Map::<Handle, CardAction>::empty(),
            r.components@ == Map::<Handle, Component>::empty(),
            r.pending_callbacks@.len() == 0,
            r.player_spawn_positions@ == default_layout(player_count as int),
            r.local_player_id == (Handle { slot: usize::MAX, generation: u64::MAX }),
    {
        let field = Field::new(FIELD_COLS, FIELD_ROWS);
        let mut inputs: Vec<PlayerInput> = Vec::new();
        let mut i: usize = 0;
        while i < player_count
            invariant
                i <= player_count,
                inputs@.len() == i,
            decreases player_count - i,
        {
            inputs.push(PlayerInput { held: 0 });
            i += 1;
        }
        let positions: Vec<TilePosition> = if player_count <= 1 {
            vec![TilePosition { x: 2, y: 2 }]
        } else if player_count == 2 {
            vec![TilePosition { x: 2, y: 2 }, TilePosition { x: 5, y: 2 }]
        } else if player_count == 3 {
            vec![TilePosition { x: 2, y: 2 }, TilePosition { x: 4, y: 3 }, TilePosition { x: 6, y: 1 }]
        } else {
            vec![
                TilePosition { x: 1, y: 3 },
                TilePosition { x: 3, y: 1 },
                TilePosition { x: 4, y: 3 },
                TilePosition { x: 6, y: 1 },
            ]
        };
        let r = BattleSimulation {
            battle_started: false,
            inputs,
            time: 0,
            battle_time: 0,
            field,
            entities: Store::new(),
            queued_attacks: Vec::new(),
            defense_judge: DefenseJudge::new(),
            animators: Store::new(),
            card_actions: Store::new(),
            components: Store::new(),
            pending_callbacks: Vec::new(),
            local_player_id: Handle::dangling(),
            player_spawn_positions: positions,
            perspective_flipped: false,
            intro_complete: false,
            stale: false,
            exit: false,
        };
        proof {
            assert(r.entities@ =~= Map::<Handle, Entity>::empty());
            assert(r.animators@ =~= Map::<Handle, Animator>::empty());
            assert(r.card_actions@ =~= Map::<Handle, CardAction>::empty());
            assert(r.components@ =~= Map::<Handle, Component>::empty());
            assert(r.player_spawn_positions@ =~= default_layout(player_count as int));
            assert forall|t: int| 0 <= t < r.field.tiles@.len() implies (
            #[trigger] r.field.tiles@[t]).entity_count == occupants(
                r.entities@,
                r.field.cols,
                t,
            ).len() by {
                assert(occupants(r.entities@, r.field.cols, t) =~= Set::empty());
            }
        }
        r
    }
}


/// `b` is `a` with, at most, its entities changed.
pub open spec fn same_but_entities(a: BattleSimulation, b: BattleSimulation) -> bool {
    &&& b.battle_started == a.battle_started
    &&& b.inputs == a.inputs
    &&& b.time == a.time
    &&& b.battle_time == a.battle_time
    &&& b.field == a.field
    &&& b.queued_attacks == a.queued_attacks
    &&& b.defense_judge == a.defense_judge
    &&& b.animators == a.animators
    &&& b.card_actions == a.card_actions
    &&& b.components == a.components
    &&& b.pending_callbacks == a.pending_callbacks
    &&& b.local_player_id == a.local_player_id
    &&& b.player_spawn_positions == a.player_spawn_positions
}

/// An unspawned entity: the kind of entity that may be stored without
/// touching any tile.
pub open spec fn fresh_entity(e: Entity, h: Handle, kind: EntityKind) -> bool {
    &&& e.id == h
    &&& e.kind == kind
    &&& e.x == 0 && e.y == 0
    &&& e.team == Team::Unset
    &&& e.facing == Direction::Unset
    &&& e.card_action.is_none()
    &&& !e.pending_spawn && !e.spawned && !e.on_field
    &&& !e.erased && !e.deleted
    &&& e.delete_callbacks@.len() == 0
    &&& e.local_components@.len() == 0
}

/// The state of an entity after the spawn pass of a frame on field `f`.
pub open spec fn after_spawn(e: Entity, f: Field) -> Entity {
    if e.pending_spawn && in_bounds(f.cols, f.rows, e.x, e.y) {
        let tile = f.tiles@[tile_index(f.cols, e.x, e.y)];
        Entity {
            pending_spawn: false,
            spawned: true,
            on_field: true,
            team: if e.team == Team::Unset {
                tile.team
            } else {
                e.team
            },
            facing: if e.facing == Direction::Unset {
                tile.direction
            } else {
                e.facing
            },
            ..e
        }
    } else {
        e
    }
}

/// Whether the spawn pass places `e` on the field `f`.
pub open spec fn spawns(e: Entity, f: Field) -> bool {
    e.pending_spawn && in_bounds(f.cols, f.rows, e.x, e.y)
}

/// Whether some entity of `m` that the spawn pass places on field `f` is
/// animated by `k`.
pub open spec fn spawn_enables(m: Map<Handle, Entity>, f: Field, k: Handle) -> bool {
    exists|h: Handle| #[trigger] m.contains_key(h) && spawns(m[h], f) && m[h].animator == k
}

/// The callbacks that spawning `e` queues.
pub open spec fn spawn_events(e: Entity, battle_started: bool) -> Seq<Callback> {
    optional(e.spawn_callback) + if battle_started {
        optional(e.battle_start_callback)
    } else {
        seq![]
    }
}

impl BattleSimulation {
    /// Stores `e` under the live handle `h`, where `e` stands where the old
    /// entity stood.
    fn put_entity(&mut self, h: Handle, e: Entity)
        requires
            old(self).wf(),
            old(self).entities@.contains_key(h),
            e.id == h,
            e.spawned == old(self).entities@[h].spawned,
            e.x == old(self).entities@[h].x,
            e.y == old(self).entities@[h].y,
            e.card_action.is_some() ==> old(self).holds(h, e.card_action.unwrap()),
        ensures
            final(self).wf(),
            final(self).entities@ == old(self).entities@.insert(h, e),
            same_but_entities(*old(self), *final(self)),
    {
        let ghost m = self.entities@;
        self.entities.set(h, e);
        proof {
            assert forall|t: int| 0 <= t < self.field.tiles@.len() implies (
            #[trigger] self.field.tiles@[t]).entity_count == occupants(
                self.entities@,
                self.field.cols,
                t,
            ).len() by {
                lemma_occupants_insert(m, h, e, self.field.cols, t);
            }
            assert forall|g: Handle| #[trigger] self.entities@.contains_key(g) implies self.entity_ok(
                g,
            ) by {
                if g != h {
                    assert(old(self).entity_ok(g));
                }
            }
        }
    }

    /// Creates an unspawned entity of kind `kind` with a fresh, disabled
    /// animator.
    fn create_entity(&mut self, kind: EntityKind) -> (r: Handle)
        requires
            old(self).wf(),
        ensures
            final(self).wf(),
            !old(self).entities@.contains_key(r),
            final(self).entities@.dom() == old(self).entities@.dom().insert(r),
            forall|h: Handle| h != r && #[trigger] old(self).entities@.contains_key(h)
                ==> final(self).entities@[h] == old(self).entities@[h],
            fresh_entity(final(self).entities@[r], r, kind),
            !old(self).animators@.contains_key(final(self).entities@[r].animator),
            final(self).animators@.dom() == old(self).animators@.dom().insert(
                final(self).entities@[r].animator,
            ),
            forall|k: Handle| #[trigger] old(self).animators@.contains_key(k)
                ==> final(self).animators@[k] == old(self).animators@[k],
            !final(self).animators@[final(self).entities@[r].animator].enabled,
            final(self).animators@[final(self).entities@[r].animator].current.is_none(),
            final(self).animators@[final(self).entities@[r].animator].states@.len() == 0,
            final(self).field == old(self).field,
            final(self).card_actions == old(self).card_actions,
            final(self).components == old(self).components,
            final(self).pending_callbacks == old(self).pending_callbacks,
            final(self).time == old(self).time,
            final(self).battle_started == old(self).battle_started,
    {
        let mut animator = Animator::new();
        animator.disable();
        let k = self.animators.insert(animator);
        let ghost m = self.entities@;
        let h = self.entities.insert(Entity::new(Handle::dangling(), kind, k));
        self.entities.set(h, Entity::new(h, kind, k));
        proof {
            assert(self.entities@ =~= m.insert(h, self.entities@[h]));
            assert forall|t: int| 0 <= t < self.field.tiles@.len() implies (
            #[trigger] self.field.tiles@[t]).entity_count == occupants(
                self.entities@,
                self.field.cols,
                t,
            ).len() by {
                lemma_occupants_insert(m, h, self.entities@[h], self.field.cols, t);
            }
            assert forall|g: Handle| #[trigger] self.entities@.contains_key(g) implies self.entity_ok(
                g,
            ) by {
                if g != h {
                    assert(old(self).entity_ok(g));
                }
            }
            assert forall|j: Handle| #[trigger] self.animators@.contains_key(j) implies self.animators@[j].wf() by {
                if j != k {
                    assert(old(self).animators@.contains_key(j));
                }
            }
        }
        h
    }

    /// Creates an unspawned artifact, which walks over holes and ignores tile
    /// effects.
    pub fn create_artifact(&mut self) -> (r: Handle)
        requires
            old(self).wf(),
        ensures
            final(self).wf(),
            !old(self).entities@.contains_key(r),
            final(self).entities@.dom() == old(self).entities@.dom().insert(r),
            fresh_entity(final(self).entities@[r], r, EntityKind::Artifact),
            final(self).entities@[r].ignore_hole_tiles,
            final(self).entities@[r].ignore_tile_effects,
            final(self).entities@[r].living.is_none(),
            final(self).animators@.dom() == old(self).animators@.dom().insert(final(self).entities@[r].animator),
            !old(self).animators@.contains_key(final(self).entities@[r].animator),
            forall|k: Handle| #[trigger] old(self).animators@.contains_key(k)
                ==> final(self).animators@[k] == old(self).animators@[k],
            !final(self).animators@[final(self).entities@[r].animator].enabled,
            final(self).animators@[final(self).entities@[r].animator].current.is_none(),
            final(self).animators@[final(self).entities@[r].animator].states@.len() == 0,
            forall|h: Handle| h != r && #[trigger] old(self).entities@.contains_key(h)
                ==> final(self).entities@[h] == old(self).entities@[h],
            final(self).field == old(self).field,
            final(self).card_actions == old(self).card_actions,
            final(self).components == old(self).components,
            final(self).pending_callbacks == old(self).pending_callbacks,
            final(self).time == old(self).time,
    {
        let h = self.create_entity(EntityKind::Artifact);
        let e = self.entity(h).unwrap();
        let mut e2 = Entity::new(h, EntityKind::Artifact, e.animator);
        e2.ignore_hole_tiles = true;
        e2.ignore_tile_effects = true;
        self.put_entity(h, e2);
        h
    }

    /// Creates an unspawned spell, which walks over holes and ignores tile
    /// effects.
    pub fn create_spell(&mut self) -> (r: Handle)
        requires
            old(self).wf(),
        ensures
            final(self).wf(),
            !old(self).entities@.contains_key(r),
            final(self).entities@.dom() == old(self).entities@.dom().insert(r),
            fresh_entity(final(self).entities@[r], r, EntityKind::Spell),
            final(self).entities@[r].ignore_hole_tiles,
            final(self).entities@[r].ignore_tile_effects,
            final(self).entities@[r].living.is_none(),
            final(self).animators@.dom() == old(self).animators@.dom().insert(final(self).entities@[r].animator),
            !old(self).animators@.contains_key(final(self).entities@[r].animator),
            forall|k: Handle| #[trigger] old(self).animators@.contains_key(k)
                ==> final(self).animators@[k] == old(self).animators@[k],
            !final(self).animators@[final(self).entities@[r].animator].enabled,
            final(self).animators@[final(self).entities@[r].animator].current.is_none(),
            final(self).animators@[final(self).entities@[r].animator].states@.len() == 0,
            forall|h: Handle| h != r && #[trigger] old(self).entities@.contains_key(h)
                ==> final(self).entities@[h] == old(self).entities@[h],
            final(self).field == old(self).field,
            final(self).card_actions == old(self).card_actions,
            final(self).components == old(self).components,
            final(self).pending_callbacks == old(self).pending_callbacks,
            final(self).time == old(self).time,
    {
        let h = self.create_entity(EntityKind::Spell);
        let e = self.entity(h).unwrap();
        let mut e2 = Entity::new(h, EntityKind::Spell, e.animator);
        e2.ignore_hole_tiles = true;
        e2.ignore_tile_effects = true;
        self.put_entity(h, e2);
        h
    }

    /// Creates an unspawned obstacle: a spell that can take damage.
    pub fn create_obstacle(&mut self) -> (r: Handle)
        requires
            old(self).wf(),
        ensures
            final(self).wf(),
            !old(self).entities@.contains_key(r),
            final(self).entities@.dom() == old(self).entities@.dom().insert(r),
            fresh_entity(final(self).entities@[r], r, EntityKind::Obstacle),
            final(self).entities@[r].living.is_some(),
            final(self).entities@[r].living.unwrap().health == 0,
            final(self).animators@.dom() == old(self).animators@.dom().insert(final(self).entities@[r].animator),
            !old(self).animators@.contains_key(final(self).entities@[r].animator),
            forall|k: Handle| #[trigger] old(self).animators@.contains_key(k)
                ==> final(self).animators@[k] == old(self).animators@[k],
            !final(self).animators@[final(self).entities@[r].animator].enabled,
            final(self).animators@[final(self).entities@[r].animator].current.is_none(),
            final(self).animators@[final(self).entities@[r].animator].states@.len() == 0,
            forall|h: Handle| h != r && #[trigger] old(self).entities@.contains_key(h)
                ==> final(self).entities@[h] == old(self).entities@[h],
            final(self).field == old(self).field,
            final(self).card_actions == old(self).card_actions,
            final(self).components == old(self).components,
            final(self).pending_callbacks == old(self).pending_callbacks,
            final(self).time == old(self).time,
    {
        let h = self.create_entity(EntityKind::Obstacle);
        let e = self.entity(h).unwrap();
        let mut e2 = Entity::new(h, EntityKind::Obstacle, e.animator);
        e2.living = Some(Living::new(0));
        self.put_entity(h, e2);
        h
    }

    /// Creates an unspawned character of rank `rank` with `health`; it
    /// reserves the tiles it stands on and moves by the character rule (see
    /// `can_move_to`).
    pub fn create_character(&mut self, rank: CharacterRank, health: i32) -> (r: Handle)
        requires
            old(self).wf(),
        ensures
            final(self).wf(),
            !old(self).entities@.contains_key(r),
            final(self).entities@.dom() == old(self).entities@.dom().insert(r),
            fresh_entity(final(self).entities@[r], r, EntityKind::Character(rank)),
            final(self).entities@[r].auto_reserves_tiles,
            final(self).entities@[r].living.is_some(),
            final(self).entities@[r].living.unwrap().health == health,
            final(self).entities@[r].living.unwrap().defense_rules@.len() == 0,
            final(self).animators@.dom() == old(self).animators@.dom().insert(final(self).entities@[r].animator),
            !old(self).animators@.contains_key(final(self).entities@[r].animator),
            forall|k: Handle| #[trigger] old(self).animators@.contains_key(k)
                ==> final(self).animators@[k] == old(self).animators@[k],
            !final(self).animators@[final(self).entities@[r].animator].enabled,
            final(self).animators@[final(self).entities@[r].animator].current.is_none(),
            final(self).animators@[final(self).entities@[r].animator].states@.len() == 0,
            forall|h: Handle| h != r && #[trigger] old(self).entities@.contains_key(h)
                ==> final(self).entities@[h] == old(self).entities@[h],
            final(self).field == old(self).field,
            final(self).card_actions == old(self).card_actions,
            final(self).components == old(self).components,
            final(self).pending_callbacks == old(self).pending_callbacks,
            final(self).time == old(self).time,
    {
        let h = self.create_entity(EntityKind::Character(rank));
        let e = self.entity(h).unwrap();
        let mut e2 = Entity::new(h, EntityKind::Character(rank), e.animator);
        e2.auto_reserves_tiles = true;
        e2.living = Some(Living::new(health));
        self.put_entity(h, e2);
        h
    }
}


/// The callbacks the spawn pass queues when it visits the entities of `m` in
/// the order `order`.
pub open spec fn spawn_events_in(
    order: Seq<Handle>,
    m: Map<Handle, Entity>,
    f: Field,
    battle_started: bool,
) -> Seq<Callback>
    decreases order.len(),
{
    if order.len() == 0 {
        seq![]
    } else {
        let e = m[order.last()];
        spawn_events_in(order.drop_last(), m, f, battle_started) + if spawns(e, f) {
            spawn_events(e, battle_started)
        } else {
            seq![]
        }
    }
}

/// The entities of `m` with their updated flags cleared.
pub open spec fn reset_updates(m: Map<Handle, Entity>) -> Map<Handle, Entity> {
    m.map_values(|e: Entity| Entity { updated: false, ..e })
}

/// The order in which a pass visits the live handles of `m`: each once, by
/// ascending slot.
pub open spec fn visit_order<V>(order: Seq<Handle>, m: Map<Handle, V>) -> bool {
    &&& order.no_duplicates()
    &&& forall|h: Handle| order.contains(h) <==> m.contains_key(h)
    &&& forall|i: int, j: int| 0 <= i < j < order.len() ==> (#[trigger] order[i]).slot < (#[trigger] order[j]).slot
}

/// The visit order is fixed by the arena's contents: two orders of the same
/// handles are the same sequence. So every pass that queues callbacks in visit
/// order queues them in an order that the state alone decides.
pub proof fn lemma_visit_order_unique<V>(o1: Seq<Handle>, o2: Seq<Handle>, m: Map<Handle, V>)
    requires
        visit_order(o1, m),
        visit_order(o2, m),
    ensures
        o1 == o2,
    decreases o1.len(),
{
    if o1.len() == 0 {
        if o2.len() > 0 {
            assert(o2.contains(o2[0]));
            assert(m.contains_key(o2[0]));
            assert(o1.contains(o2[0]));
        }
        assert(o1 =~= o2);
    } else {
        assert(o1.contains(o1[0]));
        assert(m.contains_key(o1[0]));
        assert(o2.contains(o1[0]));
        assert(o2.len() > 0);
        let j = choose|j: int| 0 <= j < o2.len() && o2[j] == o1[0];
        assert(o2.contains(o2[0]));
        assert(m.contains_key(o2[0]));
        assert(o1.contains(o2[0]));
        let i = choose|i: int| 0 <= i < o1.len() && o1[i] == o2[0];
        if j > 0 {
            assert(o2[0] != o2[j]);
            assert(i != 0);
            assert(o1[0].slot < o1[i].slot);
            assert(o2[0].slot < o2[j].slot);
        }
        assert(o2[0] == o1[0]);
        let x = o1[0];
        let r1 = o1.drop_first();
        let r2 = o2.drop_first();
        let m2 = m.remove(x);
        assert forall|h: Handle| r1.contains(h) <==> m2.contains_key(h) by {
            if r1.contains(h) {
                let k = choose|k: int| 0 <= k < r1.len() && r1[k] == h;
                assert(o1[k + 1] == h);
                assert(o1.contains(h));
            }
            if m2.contains_key(h) {
                assert(o1.contains(h));
                let k = choose|k: int| 0 <= k < o1.len() && o1[k] == h;
                assert(k != 0);
                assert(r1[k - 1] == h);
            }
        }
        assert forall|h: Handle| r2.contains(h) <==> m2.contains_key(h) by {
            if r2.contains(h) {
                let k = choose|k: int| 0 <= k < r2.len() && r2[k] == h;
                assert(o2[k + 1] == h);
                assert(o2.contains(h));
            }
            if m2.contains_key(h) {
                assert(o2.contains(h));
                let k = choose|k: int| 0 <= k < o2.len() && o2[k] == h;
                assert(k != 0);
                assert(r2[k - 1] == h);
            }
        }
        assert forall|a: int, b: int| 0 <= a < b < r1.len() implies (#[trigger] r1[a]).slot < (#[trigger] r1[b]).slot by {
            assert(r1[a] == o1[a + 1] && r1[b] == o1[b + 1]);
        }
        assert forall|a: int, b: int| 0 <= a < b < r2.len() implies (#[trigger] r2[a]).slot < (#[trigger] r2[b]).slot by {
            assert(r2[a] == o2[a + 1] && r2[b] == o2[b + 1]);
        }
        lemma_visit_order_unique(r1, r2, m2);
        assert(o1 =~= seq![x] + r1);
        assert(o2 =~= seq![x] + r2);
    }
}

impl BattleSimulation {
    /// Places the entity `h`, which waits to spawn on tile `ti`, on the field.
    fn spawn_one(&mut self, h: Handle, ti: usize)
        requires
            old(self).wf(),
            old(self).entities@.contains_key(h),
            spawns(old(self).entities@[h], old(self).field),
            ti == tile_index(old(self).field.cols, old(self).entities@[h].x, old(self).entities@[h].y),
        ensures
            final(self).wf(),
            final(self).entities@ == old(self).entities@.insert(h, after_spawn(old(self).entities@[h], old(self).field)),
            final(self).field.cols == old(self).field.cols,
            final(self).field.rows == old(self).field.rows,
            final(self).field.tiles@.len() == old(self).field.tiles@.len(),
            forall|t: int| 0 <= t < old(self).field.tiles@.len() ==> (#[trigger] final(self).field.tiles@[t]).team
                == old(self).field.tiles@[t].team && final(self).field.tiles@[t].direction == old(self).field.tiles@[t].direction,
            final(self).animators@.dom() == old(self).animators@.dom(),
            forall|k: Handle| #[trigger] old(self).animators@.contains_key(k) && k != old(self).entities@[h].animator
                ==> final(self).animators@[k] == old(self).animators@[k],
            old(self).animators@.contains_key(old(self).entities@[h].animator) ==> final(self).animators@[old(self).entities@[h].animator]
                == (Animator { enabled: true, ..old(self).animators@[old(self).entities@[h].animator] }),
            final(self).pending_callbacks@ == old(self).pending_callbacks@ + spawn_events(old(self).entities@[h], old(self).battle_started),
            final(self).card_actions == old(self).card_actions,
            final(self).components == old(self).components,
            final(self).time == old(self).time,
            final(self).battle_started == old(self).battle_started,
    {
        let ghost f0 = self.field;
        let ghost m1 = self.entities@;
        proof {
            crate::field::lemma_index_in_range(f0.cols, f0.rows, m1[h].x, m1[h].y);
        }
        let e = self.entity(h).unwrap();
        let was_spawned = e.spawned;
        let animator = e.animator;
        let team = if e.team == Team::Unset {
            self.field.tiles[ti].team
        } else {
            e.team
        };
        let facing = if e.facing == Direction::Unset {
            self.field.tiles[ti].direction
        } else {
            e.facing
        };
        let mut cbs: Vec<Callback> = Vec::new();
        if let Some(c) = e.spawn_callback {
            cbs.push(c);
        }
        if self.battle_started {
            if let Some(c) = e.battle_start_callback {
                cbs.push(c);
            }
        }
        proof {
            assert(cbs@ =~= spawn_events(m1[h], self.battle_started));
            crate::field::lemma_index_in_range(f0.cols, f0.rows, m1[h].x, m1[h].y);
        }
        let mut e2 = self.entities.replace(h, Entity::new(h, EntityKind::Artifact, animator)).unwrap();
        e2.pending_spawn = false;
        e2.spawned = true;
        e2.on_field = true;
        e2.team = team;
        e2.facing = facing;
        proof {
            assert(e2 == after_spawn(m1[h], f0));
        }
        self.entities.set(h, e2);
        proof {
            assert(self.entities@ =~= m1.insert(h, e2));
        }
        if !was_spawned {
            proof {
                let occ = occupants(m1, self.field.cols, ti as int);
                assert(occ.subset_of(m1.dom().remove(h)));
                lemma_len_subset(occ, m1.dom().remove(h));
                assert(occ.len() <= m1.dom().len() - 1);
            }
            // the live count bounds the tile count below `usize::MAX`
            let _live = self.entities.len();
            self.field.add_occupant(ti);
        }
        proof {
            assert forall|t: int| 0 <= t < self.field.tiles@.len() implies (
            #[trigger] self.field.tiles@[t]).entity_count == occupants(
                self.entities@,
                self.field.cols,
                t,
            ).len() by {
                lemma_occupants_insert(m1, h, e2, self.field.cols, t);
            }
            assert forall|g: Handle| #[trigger] self.entities@.contains_key(g) implies self.entity_ok(g) by {
                if g != h {
                    assert(m1.contains_key(g));
                }
            }
        }
        let ghost an1 = self.animators@;
        match self.animators.replace(animator, Animator::new()) {
            Some(mut a) => {
                a.enable();
                self.animators.set(animator, a);
                proof {
                    assert(self.animators@ =~= an1.insert(animator, a));
                    assert forall|j: Handle| #[trigger] self.animators@.contains_key(j) implies self.animators@[j].wf() by {
                        if j != animator {
                            assert(an1.contains_key(j));
                        }
                    }
                }
            },
            None => {},
        }
        self.pending_callbacks.append(&mut cbs);
    }

    /// The spawn pass: every entity waiting to spawn on a tile of the field is
    /// placed there, takes the tile's team and facing where it has none, has
    /// its animator enabled, and queues its spawn callback (and its
    /// battle-start callback once the battle has started). An entity waiting
    /// on a position off the field keeps waiting.
    pub fn spawn_pending(&mut self)
        requires
            old(self).wf(),
        ensures
            final(self).wf(),
            final(self).entities@.dom() == old(self).entities@.dom(),
            forall|h: Handle| #[trigger] old(self).entities@.contains_key(h)
                ==> final(self).entities@[h] == after_spawn(old(self).entities@[h], old(self).field),
            final(self).field.cols == old(self).field.cols,
            final(self).field.rows == old(self).field.rows,
            final(self).animators@.dom() == old(self).animators@.dom(),
            forall|k: Handle| #[trigger] old(self).animators@.contains_key(k)
                ==> final(self).animators@[k] == if spawn_enables(old(self).entities@, old(self).field, k) {
                    Animator { enabled: true, ..old(self).animators@[k] }
                } else {
                    old(self).animators@[k]
                },
            exists|order: Seq<Handle>| #[trigger] visit_order(order, old(self).entities@)
                && final(self).pending_callbacks@ == old(self).pending_callbacks@ + spawn_events_in(
                    order,
                    old(self).entities@,
                    old(self).field,
                    old(self).battle_started,
                ),
            final(self).card_actions == old(self).card_actions,
            final(self).components == old(self).components,
            final(self).time == old(self).time,
            final(self).battle_started == old(self).battle_started,
    {
        let hs = self.entities.handles();
        let ghost m0 = self.entities@;
        let ghost f0 = self.field;
        let ghost a0 = self.animators@;
        let ghost p0 = self.pending_callbacks@;
        let mut i: usize = 0;
        while i < hs.len()
            invariant
                0 <= i <= hs@.len(),
                visit_order(hs@, m0),
                self.wf(),
                self.entities@.dom() == m0.dom(),
                forall|h: Handle| #[trigger] m0.contains_key(h) ==> self.entities@[h] == (if hs@.take(i as int).contains(h) {
                    after_spawn(m0[h], f0)
                } else {
                    m0[h]
                }),
                self.field.cols == f0.cols,
                self.field.rows == f0.rows,
                self.field.tiles@.len() == f0.tiles@.len(),
                forall|t: int| 0 <= t < f0.tiles@.len() ==> (#[trigger] self.field.tiles@[t]).team == f0.tiles@[t].team
                    && self.field.tiles@[t].direction == f0.tiles@[t].direction,
                self.animators@.dom() == a0.dom(),
                forall|k: Handle| #[trigger] a0.contains_key(k)
                    ==> self.animators@[k] == if (exists|h: Handle| #[trigger] hs@.take(i as int).contains(h) && spawns(m0[h], f0)
                        && m0[h].animator == k) {
                        Animator { enabled: true, ..a0[k] }
                    } else {
                        a0[k]
                    },
                self.pending_callbacks@ == p0 + spawn_events_in(hs@.take(i as int), m0, f0, self.battle_started),
                self.card_actions == old(self).card_actions,
                self.components == old(self).components,
                self.time == old(self).time,
                self.battle_started == old(self).battle_started,
                f0 == old(self).field,
                m0 == old(self).entities@,
                a0 == old(self).animators@,
                p0 == old(self).pending_callbacks@,
            decreases hs@.len() - i,
        {
            let h = hs[i];
            proof {
                lemma_take_step(hs@, i as int);
                assert(hs@.contains(h));
                assert(self.entities@[h] == m0[h]);
            }
            let e = self.entity(h).unwrap();
            let spot = if e.pending_spawn {
                self.field.tile_at(e.x, e.y)
            } else {
                None
            };
            match spot {
                None => {
                    proof {
                        assert(!spawns(m0[h], f0));
                    }
                },
                Some(ti) => {
                    self.spawn_one(h, ti);
                },
            }
            proof {
                assert(self.pending_callbacks@ =~= p0 + spawn_events_in(hs@.take(i as int + 1), m0, f0, self.battle_started));
                assert forall|k: Handle| #[trigger] a0.contains_key(k) implies self.animators@[k] == if (exists|g: Handle|
                    #[trigger] hs@.take(i as int + 1).contains(g) && spawns(m0[g], f0) && m0[g].animator == k) {
                    Animator { enabled: true, ..a0[k] }
                } else {
                    a0[k]
                } by {
                    let now = exists|g: Handle| #[trigger] hs@.take(i as int + 1).contains(g) && spawns(m0[g], f0) && m0[g].animator == k;
                    let before = exists|g: Handle| #[trigger] hs@.take(i as int).contains(g) && spawns(m0[g], f0) && m0[g].animator == k;
                    if before {
                        let g = choose|g: Handle| #[trigger] hs@.take(i as int).contains(g) && spawns(m0[g], f0) && m0[g].animator == k;
                        assert(hs@.take(i as int + 1).contains(g));
                    }
                    if now && !before {
                        let g = choose|g: Handle| #[trigger] hs@.take(i as int + 1).contains(g) && spawns(m0[g], f0) && m0[g].animator == k;
                        if g != h {
                            assert(hs@.take(i as int + 1).contains(g) ==> (hs@.take(i as int).contains(g) || g == hs@[i as int]));
                            assert(hs@.take(i as int).contains(g));
                            assert(hs@.take(i as int).contains(g) && spawns(m0[g], f0) && m0[g].animator == k);
                        }
                    }
                    if spawns(m0[h], f0) && m0[h].animator == k {
                        assert(hs@.take(i as int + 1).contains(h));
                    }
                }
            }
            i += 1;
        }
        proof {
            assert(hs@.take(hs@.len() as int) =~= hs@);
            assert(visit_order(hs@, old(self).entities@));
            assert forall|k: Handle| #[trigger] old(self).animators@.contains_key(k) implies self.animators@[k] == if spawn_enables(old(self).entities@, old(self).field, k) {
                Animator { enabled: true, ..old(self).animators@[k] }
            } else {
                old(self).animators@[k]
            } by {
                if spawn_enables(m0, f0, k) {
                    let g = choose|g: Handle| #[trigger] m0.contains_key(g) && spawns(m0[g], f0) && m0[g].animator == k;
                    assert(hs@.contains(g));
                }
                if exists|g: Handle| #[trigger] hs@.contains(g) && spawns(m0[g], f0) && m0[g].animator == k {
                    let g = choose|g: Handle| #[trigger] hs@.contains(g) && spawns(m0[g], f0) && m0[g].animator == k;
                    assert(m0.contains_key(g));
                }
            }
        }
    }
}


/// The callbacks the animator pass queues when it visits the animators of `m`
/// in the order `order`.
pub open spec fn tick_events_in(order: Seq<Handle>, m: Map<Handle, Animator>) -> Seq<Callback>
    decreases order.len(),
{
    if order.len() == 0 {
        seq![]
    } else {
        tick_events_in(order.drop_last(), m) + m[order.last()].ticked().1
    }
}

/// The callbacks the component pass queues when it visits the components of
/// `m` in the order `order`: the update callback of each battle-step one.
pub open spec fn step_events_in(order: Seq<Handle>, m: Map<Handle, Component>) -> Seq<Callback>
    decreases order.len(),
{
    if order.len() == 0 {
        seq![]
    } else {
        let c = m[order.last()];
        step_events_in(order.drop_last(), m) + if c.lifetime == ComponentLifetime::BattleStep {
            seq![c.update_callback]
        } else {
            seq![]
        }
    }
}

proof fn lemma_take_step(order: Seq<Handle>, i: int)
    requires
        0 <= i < order.len(),
        order.no_duplicates(),
    ensures
        order.take(i + 1).drop_last() == order.take(i),
        order.take(i + 1).last() == order[i],
        !order.take(i).contains(order[i]),
        forall|h: Handle| order.take(i + 1).contains(h) <==> (order.take(i).contains(h) || h == order[i]),
{
    assert(order.take(i + 1).drop_last() =~= order.take(i));
    if order.take(i).contains(order[i]) {
        let j = choose|j: int| 0 <= j < i && #[trigger] order.take(i)[j] == order[i];
        assert(order[j] == order[i]);
    }
    assert forall|h: Handle| order.take(i + 1).contains(h) <==> (order.take(i).contains(h) || h == order[i]) by {
        if order.take(i + 1).contains(h) {
            let j = choose|j: int| 0 <= j < i + 1 && #[trigger] order.take(i + 1)[j] == h;
            if j < i {
                assert(order.take(i)[j] == h);
            }
        }
        if order.take(i).contains(h) {
            let j = choose|j: int| 0 <= j < i && #[trigger] order.take(i)[j] == h;
            assert(order.take(i + 1)[j] == h);
        }
        if h == order[i] {
            assert(order.take(i + 1)[i] == h);
        }
    }
}

impl BattleSimulation {
    /// Clears the flag that marks an entity as updated this frame.
    pub fn prepare_updates(&mut self)
        requires
            old(self).wf(),
        ensures
            final(self).wf(),
            final(self).entities@.dom() == old(self).entities@.dom(),
            forall|h: Handle| #[trigger] old(self).entities@.contains_key(h)
                ==> final(self).entities@[h] == (Entity { updated: false, ..old(self).entities@[h] }),
            same_but_entities(*old(self), *final(self)),
    {
        let hs = self.entities.handles();
        let ghost m0 = self.entities@;
        let mut i: usize = 0;
        while i < hs.len()
            invariant
                0 <= i <= hs@.len(),
                visit_order(hs@, m0),
                self.wf(),
                same_but_entities(*old(self), *self),
                m0 == old(self).entities@,
                self.entities@.dom() == m0.dom(),
                forall|h: Handle| #[trigger] m0.contains_key(h) ==> self.entities@[h] == (if hs@.take(i as int).contains(h) {
                    Entity { updated: false, ..m0[h] }
                } else {
                    m0[h]
                }),
            decreases hs@.len() - i,
        {
            let h = hs[i];
            proof {
                lemma_take_step(hs@, i as int);
                assert(hs@.contains(h));
            }
            let animator = self.entity(h).unwrap().animator;
            let ghost m1 = self.entities@;
            let mut e = self.entities.replace(h, Entity::new(h, EntityKind::Artifact, animator)).unwrap();
            e.updated = false;
            self.entities.set(h, e);
            proof {
                assert(self.entities@ =~= m1.insert(h, e));
                assert forall|t: int| 0 <= t < self.field.tiles@.len() implies (
                #[trigger] self.field.tiles@[t]).entity_count == occupants(
                    self.entities@,
                    self.field.cols,
                    t,
                ).len() by {
                    lemma_occupants_insert(m1, h, e, self.field.cols, t);
                }
                assert forall|g: Handle| #[trigger] self.entities@.contains_key(g) implies self.entity_ok(
                    g,
                ) by {
                    if g != h {
                        assert(m1[g] == self.entities@[g]);
                    }
                }
            }
            i += 1;
        }
        proof {
            assert(hs@.take(hs@.len() as int) =~= hs@);
        }
    }
}


/// `b` is `a` with, at most, its animators and pending callbacks changed.
pub open spec fn same_but_animation(a: BattleSimulation, b: BattleSimulation) -> bool {
    &&& b.battle_started == a.battle_started
    &&& b.inputs == a.inputs
    &&& b.time == a.time
    &&& b.battle_time == a.battle_time
    &&& b.field == a.field
    &&& b.entities == a.entities
    &&& b.queued_attacks == a.queued_attacks
    &&& b.defense_judge == a.defense_judge
    &&& b.card_actions == a.card_actions
    &&& b.components == a.components
    &&& b.local_player_id == a.local_player_id
    &&& b.player_spawn_positions == a.player_spawn_positions
}

impl BattleSimulation {
    /// The animator pass: every animator advances by one update, and the
    /// callbacks the updates fire are queued.
    pub fn update_animations(&mut self)
        requires
            old(self).wf(),
        ensures
            final(self).wf(),
            same_but_animation(*old(self), *final(self)),
            final(self).animators@.dom() == old(self).animators@.dom(),
            forall|k: Handle| #[trigger] old(self).animators@.contains_key(k)
                ==> final(self).animators@[k] == old(self).animators@[k].ticked().0,
            exists|order: Seq<Handle>| #[trigger] visit_order(order, old(self).animators@)
                && final(self).pending_callbacks@ == old(self).pending_callbacks@ + tick_events_in(
                    order,
                    old(self).animators@,
                ),
    {
        let ks = self.animators.handles();
        let ghost a0 = self.animators@;
        let ghost p0 = self.pending_callbacks@;
        let mut i: usize = 0;
        while i < ks.len()
            invariant
                0 <= i <= ks@.len(),
                visit_order(ks@, a0),
                self.wf(),
                same_but_animation(*old(self), *self),
                a0 == old(self).animators@,
                p0 == old(self).pending_callbacks@,
                self.animators@.dom() == a0.dom(),
                forall|k: Handle| #[trigger] a0.contains_key(k) ==> self.animators@[k] == (if ks@.take(i as int).contains(k) {
                    a0[k].ticked().0
                } else {
                    a0[k]
                }),
                self.pending_callbacks@ == p0 + tick_events_in(ks@.take(i as int), a0),
            decreases ks@.len() - i,
        {
            let k = ks[i];
            proof {
                lemma_take_step(ks@, i as int);
                assert(ks@.contains(k));
            }
            let ghost an1 = self.animators@;
            let mut a = self.animators.replace(k, Animator::new()).unwrap();
            let mut evs = a.update();
            self.animators.set(k, a);
            self.pending_callbacks.append(&mut evs);
            proof {
                assert(self.animators@ =~= an1.insert(k, a));
                assert forall|j: Handle| #[trigger] self.animators@.contains_key(j) implies self.animators@[j].wf() by {
                    if j != k {
                        assert(an1.contains_key(j));
                    }
                }
                assert(self.pending_callbacks@ =~= p0 + tick_events_in(ks@.take(i as int + 1), a0));
            }
            i += 1;
        }
        proof {
            assert(ks@.take(ks@.len() as int) =~= ks@);
        }
    }

    /// After the scripts of a frame: the update callback of every battle-step
    /// component is queued, once each; locally owned components are left to
    /// their owners. The host drains the queue, then calls `finish_frame`.
    pub fn post_update(&mut self)
        requires
            old(self).wf(),
        ensures
            final(self).wf(),
            same_but_animation(*old(self), *final(self)),
            final(self).animators == old(self).animators,
            exists|order: Seq<Handle>| #[trigger] visit_order(order, old(self).components@)
                && final(self).pending_callbacks@ == old(self).pending_callbacks@ + step_events_in(
                    order,
                    old(self).components@,
                ),
    {
        let cs = self.components.handles();
        let ghost p0 = self.pending_callbacks@;
        let mut i: usize = 0;
        while i < cs.len()
            invariant
                0 <= i <= cs@.len(),
                visit_order(cs@, old(self).components@),
                self.wf(),
                same_but_animation(*old(self), *self),
                self.animators == old(self).animators,
                p0 == old(self).pending_callbacks@,
                self.pending_callbacks@ == p0 + step_events_in(cs@.take(i as int), old(self).components@),
            decreases cs@.len() - i,
        {
            let h = cs[i];
            proof {
                lemma_take_step(cs@, i as int);
                assert(cs@.contains(h));
            }
            let c = *self.components.get(h).unwrap();
            if c.lifetime == ComponentLifetime::BattleStep {
                self.pending_callbacks.push(c.update_callback);
            }
            proof {
                assert(self.pending_callbacks@ =~= p0 + step_events_in(cs@.take(i as int + 1), old(self).components@));
            }
            i += 1;
        }
        proof {
            assert(cs@.take(cs@.len() as int) =~= cs@);
        }
    }

    /// Takes the oldest pending callback off the queue. The script host runs
    /// it, and calls again until the queue is empty: callbacks queued by a
    /// callback run in the same drain.
    pub fn next_pending_callback(&mut self) -> (r: Option<Callback>)
        requires
            old(self).wf(),
        ensures
            final(self).wf(),
            same_but_animation(*old(self), *final(self)),
            final(self).animators == old(self).animators,
            old(self).pending_callbacks@.len() == 0 ==> r.is_none() && final(self).pending_callbacks@.len() == 0,
            old(self).pending_callbacks@.len() > 0 ==> r == Some(old(self).pending_callbacks@[0])
                && final(self).pending_callbacks@ == old(self).pending_callbacks@.drop_first(),
    {
        if self.pending_callbacks.len() == 0 {
            None
        } else {
            let c = self.pending_callbacks.remove(0);
            proof {
                assert(self.pending_callbacks@ =~= old(self).pending_callbacks@.drop_first());
            }
            Some(c)
        }
    }

    /// Queues `callback` behind the callbacks already waiting.
    pub fn queue_callback(&mut self, callback: Callback)
        requires
            old(self).wf(),
        ensures
            final(self).wf(),
            same_but_animation(*old(self), *final(self)),
            final(self).animators == old(self).animators,
            final(self).pending_callbacks@ == old(self).pending_callbacks@.push(callback),
    {
        self.pending_callbacks.push(callback);
    }
}


/// The entities of `m` that are not erased.
pub open spec fn kept_entities(m: Map<Handle, Entity>) -> Map<Handle, Entity> {
    m.restrict(m.dom().filter(|h: Handle| !m[h].erased))
}

/// The animators of the erased entities of `m`.
pub open spec fn erased_animators(m: Map<Handle, Entity>) -> Set<Handle> {
    Set::new(|k: Handle| exists|h: Handle| #[trigger] m.contains_key(h) && m[h].erased && m[h].animator == k)
}

/// The card actions of `m` that survive a cleanup leaving the entities `live`:
/// those not deleted whose owner is live.
pub open spec fn kept_actions(m: Map<Handle, CardAction>, live: Set<Handle>) -> Map<Handle, CardAction> {
    m.restrict(m.dom().filter(|a: Handle| !m[a].deleted && live.contains(m[a].entity)))
}

/// The components of `m` whose owner is among `live`.
pub open spec fn kept_components(m: Map<Handle, Component>, live: Set<Handle>) -> Map<Handle, Component> {
    m.restrict(m.dom().filter(|c: Handle| live.contains(m[c].entity)))
}

/// The animators of the erased entities among `order`.
pub open spec fn erased_animators_in(order: Seq<Handle>, m: Map<Handle, Entity>) -> Set<Handle> {
    Set::new(|k: Handle| exists|h: Handle| #[trigger] order.contains(h) && m[h].erased && m[h].animator == k)
}

proof fn lemma_erased_animators_step(order: Seq<Handle>, i: int, m: Map<Handle, Entity>)
    requires
        0 <= i < order.len(),
        order.no_duplicates(),
    ensures
        erased_animators_in(order.take(i + 1), m) == if m[order[i]].erased {
            erased_animators_in(order.take(i), m).insert(m[order[i]].animator)
        } else {
            erased_animators_in(order.take(i), m)
        },
{
    lemma_take_step(order, i);
    let a = erased_animators_in(order.take(i), m);
    let b = erased_animators_in(order.take(i + 1), m);
    assert forall|k: Handle| #[trigger] b.contains(k) implies a.contains(k) || (m[order[i]].erased && k == m[order[i]].animator) by {
        let h = choose|h: Handle| #[trigger] order.take(i + 1).contains(h) && m[h].erased && m[h].animator == k;
        if h != order[i] {
            assert(order.take(i).contains(h));
        }
    }
    assert forall|k: Handle| #[trigger] a.contains(k) implies b.contains(k) by {
        let h = choose|h: Handle| #[trigger] order.take(i).contains(h) && m[h].erased && m[h].animator == k;
        assert(order.take(i + 1).contains(h));
    }
    if m[order[i]].erased {
        assert(order.take(i + 1).contains(order[i]));
        assert(b.contains(m[order[i]].animator));
        assert(b =~= a.insert(m[order[i]].animator));
    } else {
        assert(b =~= a);
    }
}

proof fn lemma_erased_animators_all(order: Seq<Handle>, m: Map<Handle, Entity>)
    requires
        visit_order(order, m),
    ensures
        erased_animators_in(order, m) == erased_animators(m),
{
    assert forall|k: Handle| #[trigger] erased_animators(m).contains(k) implies erased_animators_in(order, m).contains(k) by {
        let h = choose|h: Handle| #[trigger] m.contains_key(h) && m[h].erased && m[h].animator == k;
        assert(order.contains(h));
    }
    assert forall|k: Handle| #[trigger] erased_animators_in(order, m).contains(k) implies erased_animators(m).contains(k) by {
        let h = choose|h: Handle| #[trigger] order.contains(h) && m[h].erased && m[h].animator == k;
        assert(m.contains_key(h));
    }
    assert(erased_animators_in(order, m) =~= erased_animators(m));
}

impl BattleSimulation {
    /// Removes erased entities, lifting them off their tiles, together with
    /// their animators.
    #[verifier::rlimit(60)]
    fn remove_erased_entities(&mut self)
        requires
            old(self).wf(),
        ensures
            final(self).wf(),
            final(self).entities@ == kept_entities(old(self).entities@),
            final(self).animators@ == old(self).animators@.remove_keys(erased_animators(old(self).entities@)),
            final(self).field.cols == old(self).field.cols,
            final(self).field.rows == old(self).field.rows,
            final(self).card_actions == old(self).card_actions,
            final(self).components == old(self).components,
            final(self).pending_callbacks == old(self).pending_callbacks,
            final(self).time == old(self).time,
            final(self).battle_started == old(self).battle_started,
    {
        let hs = self.entities.handles();
        let ghost m0 = self.entities@;
        let ghost a0 = self.animators@;
        let mut i: usize = 0;
        while i < hs.len()
            invariant
                0 <= i <= hs@.len(),
                visit_order(hs@, m0),
                self.wf(),
                m0 == old(self).entities@,
                a0 == old(self).animators@,
                self.entities@ == m0.restrict(m0.dom().filter(|h: Handle| !(hs@.take(i as int).contains(h) && m0[h].erased))),
                self.animators@ == a0.remove_keys(erased_animators_in(hs@.take(i as int), m0)),
                self.field.cols == old(self).field.cols,
                self.field.rows == old(self).field.rows,
                self.card_actions == old(self).card_actions,
                self.components == old(self).components,
                self.pending_callbacks == old(self).pending_callbacks,
                self.time == old(self).time,
                self.battle_started == old(self).battle_started,
            decreases hs@.len() - i,
        {
            let h = hs[i];
            proof {
                lemma_take_step(hs@, i as int);
                assert(hs@.contains(h));
                assert(self.entities@.contains_key(h));
            }
            let ghost before = self.entities@;
            let ghost abefore = self.animators@;
            let e = self.entity(h).unwrap();
            if e.erased {
                let animator = e.animator;
                if e.spawned {
                    let ti = self.field.tile_at(e.x, e.y).unwrap();
                    proof {
                        assert(occupants(before, self.field.cols, ti as int).contains(h));
                        lemma_occupants_finite(before, self.field.cols, ti as int);
                    }
                    self.field.remove_occupant(ti);
                }
                self.entities.remove(h);
                self.animators.remove(animator);
                proof {
                    assert forall|t: int| 0 <= t < self.field.tiles@.len() implies (
                    #[trigger] self.field.tiles@[t]).entity_count == occupants(
                        self.entities@,
                        self.field.cols,
                        t,
                    ).len() by {
                        lemma_occupants_remove(before, h, self.field.cols, t);
                    }
                    assert forall|g: Handle| #[trigger] self.entities@.contains_key(g) implies self.entity_ok(g) by {
                        assert(before.contains_key(g));
                    }
                    assert forall|j: Handle| #[trigger] self.animators@.contains_key(j) implies self.animators@[j].wf() by {
                        assert(abefore.contains_key(j));
                    }
                }
            }
            proof {
                assert(self.entities@ =~= m0.restrict(m0.dom().filter(|g: Handle| !(hs@.take(i as int + 1).contains(g) && m0[g].erased))));
                lemma_erased_animators_step(hs@, i as int, m0);
                assert(self.animators@ =~= a0.remove_keys(erased_animators_in(hs@.take(i as int + 1), m0)));
            }
            i += 1;
        }
        proof {
            assert(hs@.take(hs@.len() as int) =~= hs@);
            assert(self.entities@ =~= kept_entities(m0));
            lemma_erased_animators_all(hs@, m0);
        }
    }
}


impl BattleSimulation {
    /// Removes the card actions that were deleted or whose owner is gone.
    fn remove_finished_actions(&mut self)
        requires
            old(self).wf(),
        ensures
            final(self).wf(),
            final(self).card_actions@ == kept_actions(old(self).card_actions@, old(self).entities@.dom()),
            final(self).entities == old(self).entities,
            final(self).animators == old(self).animators,
            final(self).field == old(self).field,
            final(self).components == old(self).components,
            final(self).pending_callbacks == old(self).pending_callbacks,
            final(self).time == old(self).time,
            final(self).battle_started == old(self).battle_started,
    {
        let hs = self.card_actions.handles();
        let ghost m0 = self.card_actions@;
        let ghost live = self.entities@.dom();
        let mut i: usize = 0;
        while i < hs.len()
            invariant
                0 <= i <= hs@.len(),
                visit_order(hs@, m0),
                self.wf(),
                m0 == old(self).card_actions@,
                live == old(self).entities@.dom(),
                self.card_actions@ == m0.restrict(m0.dom().filter(|a: Handle| !(hs@.take(i as int).contains(a) && !(!m0[a].deleted && live.contains(m0[a].entity))))),
                self.entities == old(self).entities,
                self.animators == old(self).animators,
                self.field == old(self).field,
                self.components == old(self).components,
                self.pending_callbacks == old(self).pending_callbacks,
                self.time == old(self).time,
                self.battle_started == old(self).battle_started,
            decreases hs@.len() - i,
        {
            let a = hs[i];
            proof {
                lemma_take_step(hs@, i as int);
                assert(hs@.contains(a));
            }
            let ghost before = self.card_actions@;
            let action = self.card_actions.get(a).unwrap();
            let owner = action.entity;
            if action.deleted || self.entities.get(owner).is_none() {
                self.card_actions.remove(a);
                proof {
                    assert forall|g: Handle| #[trigger] self.entities@.contains_key(g) implies self.entity_ok(g) by {
                        assert(old(self).entity_ok(g));
                        let e = self.entities@[g];
                        if e.card_action.is_some() {
                            assert(old(self).holds(g, e.card_action.unwrap()));
                            assert(e.card_action.unwrap() != a);
                        }
                    }
                }
            }
            proof {
                assert(self.card_actions@ =~= m0.restrict(m0.dom().filter(|b: Handle| !(hs@.take(i as int + 1).contains(b) && !(!m0[b].deleted && live.contains(m0[b].entity))))));
            }
            i += 1;
        }
        proof {
            assert(hs@.take(hs@.len() as int) =~= hs@);
            assert(self.card_actions@ =~= kept_actions(m0, live));
        }
    }

    /// Removes the components whose owner is gone.
    fn remove_orphan_components(&mut self)
        requires
            old(self).wf(),
        ensures
            final(self).wf(),
            final(self).components@ == kept_components(old(self).components@, old(self).entities@.dom()),
            final(self).entities == old(self).entities,
            final(self).animators == old(self).animators,
            final(self).card_actions == old(self).card_actions,
            final(self).field == old(self).field,
            final(self).pending_callbacks == old(self).pending_callbacks,
            final(self).time == old(self).time,
            final(self).battle_started == old(self).battle_started,
    {
        let hs = self.components.handles();
        let ghost m0 = self.components@;
        let ghost live = self.entities@.dom();
        let mut i: usize = 0;
        while i < hs.len()
            invariant
                0 <= i <= hs@.len(),
                visit_order(hs@, m0),
                self.wf(),
                m0 == old(self).components@,
                live == old(self).entities@.dom(),
                self.components@ == m0.restrict(m0.dom().filter(|c: Handle| !(hs@.take(i as int).contains(c) && !live.contains(m0[c].entity)))),
                self.entities == old(self).entities,
                self.animators == old(self).animators,
                self.card_actions == old(self).card_actions,
                self.field == old(self).field,
                self.pending_callbacks == old(self).pending_callbacks,
                self.time == old(self).time,
                self.battle_started == old(self).battle_started,
            decreases hs@.len() - i,
        {
            let c = hs[i];
            proof {
                lemma_take_step(hs@, i as int);
                assert(hs@.contains(c));
            }
            let owner = self.components.get(c).unwrap().entity;
            if self.entities.get(owner).is_none() {
                self.components.remove(c);
            }
            proof {
                assert(self.components@ =~= m0.restrict(m0.dom().filter(|b: Handle| !(hs@.take(i as int + 1).contains(b) && !live.contains(m0[b].entity)))));
            }
            i += 1;
        }
        proof {
            assert(hs@.take(hs@.len() as int) =~= hs@);
            assert(self.components@ =~= kept_components(m0, live));
        }
    }

    /// The cleanup pass: erased entities leave their tiles and the store,
    /// with their animators; then card actions that were deleted or lost their
    /// owner, and components that lost their owner, are removed.
    pub fn cleanup_erased_entities(&mut self)
        requires
            old(self).wf(),
        ensures
            final(self).wf(),
            final(self).entities@ == kept_entities(old(self).entities@),
            final(self).animators@ == old(self).animators@.remove_keys(erased_animators(old(self).entities@)),
            final(self).card_actions@ == kept_actions(old(self).card_actions@, final(self).entities@.dom()),
            final(self).components@ == kept_components(old(self).components@, final(self).entities@.dom()),
            final(self).pending_callbacks == old(self).pending_callbacks,
            final(self).time == old(self).time,
            final(self).battle_started == old(self).battle_started,
    {
        self.remove_erased_entities();
        self.remove_finished_actions();
        self.remove_orphan_components();
    }

    /// Ends a frame: cleans up, then advances the frame counter.
    pub fn finish_frame(&mut self)
        requires
            old(self).wf(),
            old(self).time < u64::MAX,
        ensures
            final(self).wf(),
            final(self).entities@ == kept_entities(old(self).entities@),
            final(self).animators@ == old(self).animators@.remove_keys(erased_animators(old(self).entities@)),
            final(self).card_actions@ == kept_actions(old(self).card_actions@, final(self).entities@.dom()),
            final(self).components@ == kept_components(old(self).components@, final(self).entities@.dom()),
            final(self).pending_callbacks == old(self).pending_callbacks,
            final(self).time == old(self).time + 1,
    {
        self.cleanup_erased_entities();
        self.time = self.time + 1;
    }

    /// Starts a frame: clears the updated flags, advances every animator and
    /// runs the spawn pass. The callbacks these fire are left queued for the
    /// script host to drain: first those of the animators, then those of the
    /// spawns.
    pub fn pre_update(&mut self)
        requires
            old(self).wf(),
        ensures
            final(self).wf(),
            final(self).entities@.dom() == old(self).entities@.dom(),
            forall|h: Handle| #[trigger] old(self).entities@.contains_key(h)
                ==> final(self).entities@[h] == after_spawn(Entity { updated: false, ..old(self).entities@[h] }, old(self).field),
            final(self).animators@.dom() == old(self).animators@.dom(),
            forall|k: Handle| #[trigger] old(self).animators@.contains_key(k)
                ==> final(self).animators@[k] == if spawn_enables(reset_updates(old(self).entities@), old(self).field, k) {
                    Animator { enabled: true, ..old(self).animators@[k].ticked().0 }
                } else {
                    old(self).animators@[k].ticked().0
                },
            exists|o1: Seq<Handle>, o2: Seq<Handle>| #[trigger] visit_order(o1, old(self).animators@)
                && #[trigger] visit_order(o2, old(self).entities@)
                && final(self).pending_callbacks@ == old(self).pending_callbacks@ + tick_events_in(o1, old(self).animators@)
                    + spawn_events_in(o2, reset_updates(old(self).entities@), old(self).field, old(self).battle_started),
            final(self).card_actions == old(self).card_actions,
            final(self).components == old(self).components,
            final(self).time == old(self).time,
    {
        self.prepare_updates();
        proof {
            assert(self.entities@ =~= reset_updates(old(self).entities@));
        }
        let ghost reset = self.entities@;
        let ghost mid0 = self.pending_callbacks@;
        self.update_animations();
        let ghost o1 = choose|o1: Seq<Handle>| #[trigger] visit_order(o1, old(self).animators@)
            && self.pending_callbacks@ == mid0 + tick_events_in(o1, old(self).animators@);
        let ghost mid = self.pending_callbacks@;
        self.spawn_pending();
        proof {
            let o2 = choose|o2: Seq<Handle>| #[trigger] visit_order(o2, reset)
                && self.pending_callbacks@ == mid + spawn_events_in(o2, reset, old(self).field, old(self).battle_started);
            assert(visit_order(o2, old(self).entities@));
            assert(self.pending_callbacks@ == old(self).pending_callbacks@ + tick_events_in(o1, old(self).animators@)
                + spawn_events_in(o2, reset_updates(old(self).entities@), old(self).field, old(self).battle_started));
        }
    }
}


/// The animators and queue after animator `k` is put back in the state
/// `prev`: it restarts there and the callbacks of its first frame are queued.
/// Nothing changes when `prev` is none, or `k` or the state is unknown.
pub open spec fn reverted(
    anims: Map<Handle, Animator>,
    queue: Seq<Callback>,
    k: Handle,
    prev: Option<String>,
) -> (Map<Handle, Animator>, Seq<Callback>) {
    if prev.is_some() && anims.contains_key(k) && find_state(anims[k].states@, prev.unwrap()@)
        < anims[k].states@.len() {
        let (b, evs) = anims[k].started(find_state(anims[k].states@, prev.unwrap()@));
        (anims.insert(k, b), queue + evs)
    } else {
        (anims, queue)
    }
}

/// The animators of the attachments of `act`.
pub open spec fn attachment_animators(act: CardAction) -> Set<Handle> {
    Set::new(|k: Handle| exists|i: int| 0 <= i < act.attachments@.len() && #[trigger] act.attachments@[i].animator_index == k)
}

/// Whether, in `ents`, the owner of `act` is held by it (`a` is its handle).
pub open spec fn holds_in(ents: Map<Handle, Entity>, a: Handle, act: CardAction) -> bool {
    ents.contains_key(act.entity) && ents[act.entity].card_action == Some(a)
}

/// The animators and queue after ending the action `act`: when it holds its
/// owner, the owner's animator `anim` is reverted to the saved state; then the
/// end callback is queued; the attachment animators are gone.
pub open spec fn ended(
    anims: Map<Handle, Animator>,
    queue: Seq<Callback>,
    act: CardAction,
    held: bool,
    anim: Handle,
) -> (Map<Handle, Animator>, Seq<Callback>) {
    let r = if held {
        reverted(anims, queue, anim, act.prev_state)
    } else {
        (anims, queue)
    };
    (r.0.remove_keys(attachment_animators(act)), r.1 + optional(act.end_callback))
}

/// The animators and queue after ending, in order, the actions `idx` of
/// `acts`, owned by entities of `ents`: each live, undeleted action is ended
/// at its first occurrence; the others are skipped.
pub open spec fn ended_all(
    idx: Seq<Handle>,
    ents: Map<Handle, Entity>,
    acts: Map<Handle, CardAction>,
    anims: Map<Handle, Animator>,
    queue: Seq<Callback>,
) -> (Map<Handle, Animator>, Seq<Callback>)
    decreases idx.len(),
{
    if idx.len() == 0 {
        (anims, queue)
    } else {
        let prev = ended_all(idx.drop_last(), ents, acts, anims, queue);
        let a = idx.last();
        if acts.contains_key(a) && !acts[a].deleted && !idx.drop_last().contains(a) {
            ended(prev.0, prev.1, acts[a], holds_in(ents, a, acts[a]), ents[acts[a].entity].animator)
        } else {
            prev
        }
    }
}

/// `a` is a live, used, undeleted card action of entity `h`.
pub open spec fn owned_used(acts: Map<Handle, CardAction>, h: Handle, a: Handle) -> bool {
    acts.contains_key(a) && acts[a].entity == h && acts[a].used && !acts[a].deleted
}

/// Entity `e` once the card actions `gone` no longer hold it.
pub open spec fn released(e: Entity, gone: Seq<Handle>) -> Entity {
    if e.card_action.is_some() && gone.contains(e.card_action.unwrap()) {
        Entity { card_action: None, ..e }
    } else {
        e
    }
}

impl BattleSimulation {
    /// Puts the animator `k` back in the state `prev` (see `reverted`).
    fn revert_animation(&mut self, k: Handle, prev: &Option<String>)
        requires
            old(self).wf(),
        ensures
            final(self).wf(),
            same_but_animation(*old(self), *final(self)),
            (final(self).animators@, final(self).pending_callbacks@) == reverted(
                old(self).animators@,
                old(self).pending_callbacks@,
                k,
                *prev,
            ),
    {
        match prev {
            None => {},
            Some(state) => {
                let ghost an1 = self.animators@;
                match self.animators.replace(k, Animator::new()) {
                    None => {},
                    Some(mut a) => {
                        let mut cbs = a.set_state(state);
                        self.animators.set(k, a);
                        self.pending_callbacks.append(&mut cbs);
                        proof {
                            assert(self.animators@ =~= an1.insert(k, a));
                            if find_state(an1[k].states@, state@) >= an1[k].states@.len() {
                                assert(self.animators@ =~= an1);
                                assert(self.pending_callbacks@ =~= old(self).pending_callbacks@);
                            }
                            assert forall|j: Handle| #[trigger] self.animators@.contains_key(j) implies self.animators@[j].wf() by {
                                if j != k {
                                    assert(an1.contains_key(j));
                                }
                            }
                        }
                    },
                }
            },
        }
    }

    /// Lets entity `h` use `action`. A synchronous action is refused while
    /// another one holds the entity; an accepted one holds it and switches
    /// its animator to the action's state. The action records the entity's
    /// animation state and position at its start.
    pub fn use_card_action(&mut self, h: Handle, action: CardAction) -> (r: Option<Handle>)
        requires
            old(self).wf(),
        ensures
            final(self).wf(),
            r.is_some() == (old(self).entities@.contains_key(h) && (action.spec_is_async()
                || old(self).entities@[h].card_action.is_none())),
            r.is_none() ==> final(self).entities == old(self).entities && final(self).card_actions == old(self).card_actions,
            r.is_some() ==> !old(self).card_actions@.contains_key(r.unwrap()),
            r.is_some() ==> final(self).card_actions@.dom() == old(self).card_actions@.dom().insert(r.unwrap()),
            r.is_some() ==> forall|a: Handle| #[trigger] old(self).card_actions@.contains_key(a) ==> final(self).card_actions@[a] == old(self).card_actions@[a],
            r.is_some() ==> ({
                let n = final(self).card_actions@[r.unwrap()];
                &&& n.entity == h
                &&& n.used && n.executed && !n.deleted
                &&& n.lockout_type == action.lockout_type
                &&& n.state == action.state
                &&& n.end_callback == action.end_callback
                &&& n.old_x == old(self).entities@[h].x
                &&& n.old_y == old(self).entities@[h].y
            }),
            r.is_some() ==> final(self).entities@.dom() == old(self).entities@.dom(),
            r.is_some() ==> forall|g: Handle| g != h && #[trigger] old(self).entities@.contains_key(g) ==> final(self).entities@[g] == old(self).entities@[g],
            r.is_some() ==> final(self).entities@[h] == (Entity {
                card_action: if action.spec_is_async() { old(self).entities@[h].card_action } else { r },
                ..old(self).entities@[h]
            }),
            final(self).components == old(self).components,
            final(self).field == old(self).field,
            final(self).time == old(self).time,
            final(self).pending_callbacks@.take(old(self).pending_callbacks@.len() as int) == old(self).pending_callbacks@,
    {
        let (x, y, animator, held) = match self.entity(h) {
            None => return None,
            Some(e) => (e.x, e.y, e.animator, e.card_action.is_some()),
        };
        let is_async = action.is_async();
        if !is_async && held {
            return None;
        }
        let prev_state = match self.animators.get(animator) {
            Some(a) => match a.current {
                Some(s) => Some(a.states[s].name.clone()),
                None => None,
            },
            None => None,
        };
        let mut action = action;
        action.entity = h;
        action.used = true;
        action.executed = true;
        action.deleted = false;
        action.old_x = x;
        action.old_y = y;
        action.prev_state = prev_state;
        let state = action.state.clone();
        let ghost m0 = self.entities@;
        let ghost c0 = self.card_actions@;
        let a = self.card_actions.insert(action);
        proof {
            assert forall|g: Handle| #[trigger] self.entities@.contains_key(g) implies self.entity_ok(g) by {
                assert(old(self).entity_ok(g));
                if self.entities@[g].card_action.is_some() {
                    assert(c0.contains_key(self.entities@[g].card_action.unwrap()));
                }
            }
        }
        if !is_async {
            let mut e = self.entities.replace(h, Entity::new(h, EntityKind::Artifact, animator)).unwrap();
            e.card_action = Some(a);
            self.entities.set(h, e);
            proof {
                assert(self.entities@ =~= m0.insert(h, e));
                assert forall|t: int| 0 <= t < self.field.tiles@.len() implies (
                #[trigger] self.field.tiles@[t]).entity_count == occupants(
                    self.entities@,
                    self.field.cols,
                    t,
                ).len() by {
                    lemma_occupants_insert(m0, h, e, self.field.cols, t);
                }
                assert forall|g: Handle| #[trigger] self.entities@.contains_key(g) implies self.entity_ok(g) by {
                    if g != h {
                        assert(old(self).entity_ok(g));
                        if self.entities@[g].card_action.is_some() {
                            assert(c0.contains_key(self.entities@[g].card_action.unwrap()));
                        }
                    }
                }
            }
            self.revert_animation(animator, &Some(state));
        }
        proof {
            assert(self.pending_callbacks@.take(old(self).pending_callbacks@.len() as int) =~= old(self).pending_callbacks@);
        }
        Some(a)
    }
}


impl BattleSimulation {
    /// Releases the entity held by the card action `a`, if any, reverting
    /// its animation to the state saved when the action started.
    #[verifier::rlimit(80)]
    fn release_holder(&mut self, a: Handle)
        requires
            old(self).wf(),
            old(self).card_actions@.contains_key(a),
        ensures
            final(self).wf(),
            final(self).entities@.dom() == old(self).entities@.dom(),
            forall|g: Handle| #[trigger] old(self).entities@.contains_key(g)
                ==> final(self).entities@[g] == released(old(self).entities@[g], seq![a]),
            final(self).card_actions == old(self).card_actions,
            (final(self).animators@, final(self).pending_callbacks@) == if holds_in(
                old(self).entities@,
                a,
                old(self).card_actions@[a],
            ) {
                reverted(
                    old(self).animators@,
                    old(self).pending_callbacks@,
                    old(self).entities@[old(self).card_actions@[a].entity].animator,
                    old(self).card_actions@[a].prev_state,
                )
            } else {
                (old(self).animators@, old(self).pending_callbacks@)
            },
            final(self).components == old(self).components,
            final(self).field == old(self).field,
            final(self).time == old(self).time,
            final(self).battle_started == old(self).battle_started,
    {
        let action = self.card_actions.get(a).unwrap();
        let owner = action.entity;
        let prev = match &action.prev_state {
            Some(p) => Some(p.clone()),
            None => None,
        };
        let ghost m0 = self.entities@;
        let held = match self.entity(owner) {
            Some(e) => e.card_action == Some(a),
            None => false,
        };
        if held {
            let animator = self.entity(owner).unwrap().animator;
            let mut e = self.entities.replace(owner, Entity::new(owner, EntityKind::Artifact, animator)).unwrap();
            e.card_action = None;
            self.entities.set(owner, e);
            proof {
                assert(self.entities@ =~= m0.insert(owner, e));
                assert forall|t: int| 0 <= t < self.field.tiles@.len() implies (
                #[trigger] self.field.tiles@[t]).entity_count == occupants(
                    self.entities@,
                    self.field.cols,
                    t,
                ).len() by {
                    lemma_occupants_insert(m0, owner, e, self.field.cols, t);
                }
                assert forall|g: Handle| #[trigger] self.entities@.contains_key(g) implies self.entity_ok(g) by {
                    if g != owner {
                        assert(old(self).entity_ok(g));
                    }
                }
            }
            self.revert_animation(animator, &prev);
        }
        proof {
            assert(seq![a][0] == a);
            assert forall|g: Handle| #[trigger] old(self).entities@.contains_key(g)
                implies self.entities@[g] == released(old(self).entities@[g], seq![a]) by {
                assert(old(self).entity_ok(g));
                if old(self).entities@[g].card_action.is_some() && seq![a].contains(old(self).entities@[g].card_action.unwrap()) {
                    assert(old(self).entities@[g].card_action.unwrap() == a);
                    assert(g == owner);
                }
            }
        }
    }

    /// Removes the animators `doomed`.
    fn remove_animators(&mut self, doomed: &Vec<Handle>)
        requires
            old(self).wf(),
        ensures
            final(self).wf(),
            final(self).animators@ == old(self).animators@.remove_keys(doomed@.to_set()),
            final(self).entities == old(self).entities,
            final(self).card_actions == old(self).card_actions,
            final(self).pending_callbacks == old(self).pending_callbacks,
            final(self).components == old(self).components,
            final(self).field == old(self).field,
            final(self).time == old(self).time,
            final(self).battle_started == old(self).battle_started,
    {
        let mut j: usize = 0;
        proof {
            assert(doomed@.take(0).to_set() =~= Set::<Handle>::empty());
            assert(old(self).animators@.remove_keys(Set::<Handle>::empty()) =~= old(self).animators@);
        }
        while j < doomed.len()
            invariant
                0 <= j <= doomed@.len(),
                self.wf(),
                self.animators@ == old(self).animators@.remove_keys(doomed@.take(j as int).to_set()),
                self.entities == old(self).entities,
                self.card_actions == old(self).card_actions,
                self.pending_callbacks == old(self).pending_callbacks,
                self.components == old(self).components,
                self.field == old(self).field,
                self.time == old(self).time,
                self.battle_started == old(self).battle_started,
            decreases doomed@.len() - j,
        {
            let ghost an1 = self.animators@;
            self.animators.remove(doomed[j]);
            proof {
                assert forall|k: Handle| #[trigger] self.animators@.contains_key(k) implies self.animators@[k].wf() by {
                    assert(an1.contains_key(k));
                }
                assert(doomed@.take(j as int + 1).to_set() =~= doomed@.take(j as int).to_set().insert(doomed@[j as int])) by {
                    assert(doomed@.take(j as int + 1) =~= doomed@.take(j as int).push(doomed@[j as int]));
                    doomed@.take(j as int).lemma_push_to_set_commute(doomed@[j as int]);
                }
                assert(self.animators@ =~= old(self).animators@.remove_keys(doomed@.take(j as int + 1).to_set()));
            }
            j += 1;
        }
        proof {
            assert(doomed@.take(doomed@.len() as int) =~= doomed@);
        }
    }

    /// Marks the card action `a`, which holds no entity, deleted.
    fn mark_deleted(&mut self, a: Handle)
        requires
            old(self).wf(),
            old(self).card_actions@.contains_key(a),
            forall|g: Handle| #[trigger] old(self).entities@.contains_key(g) ==> old(self).entities@[g].card_action != Some(a),
        ensures
            final(self).wf(),
            final(self).card_actions@ == old(self).card_actions@.insert(a, CardAction { deleted: true, ..old(self).card_actions@[a] }),
            final(self).entities == old(self).entities,
            final(self).animators == old(self).animators,
            final(self).pending_callbacks == old(self).pending_callbacks,
            final(self).components == old(self).components,
            final(self).field == old(self).field,
            final(self).time == old(self).time,
            final(self).battle_started == old(self).battle_started,
    {
        let placeholder = CardAction::new(a, String::new(), a);
        let ghost c0 = self.card_actions@;
        let mut done = self.card_actions.replace(a, placeholder).unwrap();
        done.deleted = true;
        self.card_actions.set(a, done);
        proof {
            assert(self.card_actions@ =~= c0.insert(a, CardAction { deleted: true, ..c0[a] }));
            assert forall|g: Handle| #[trigger] self.entities@.contains_key(g) implies self.entity_ok(g) by {
                assert(old(self).entity_ok(g));
            }
        }
    }

    /// Ends the live card action `a` (see `ended`): its owner, when held by
    /// it, is released and its animation reverted to the state saved at the
    /// start; then the end callback is queued; the attachment animators are
    /// removed. The action stays in its arena, marked deleted, until cleanup.
    fn end_action(&mut self, a: Handle)
        requires
            old(self).wf(),
            old(self).card_actions@.contains_key(a),
            !old(self).card_actions@[a].deleted,
        ensures
            final(self).wf(),
            final(self).entities@.dom() == old(self).entities@.dom(),
            forall|g: Handle| #[trigger] old(self).entities@.contains_key(g)
                ==> final(self).entities@[g] == released(old(self).entities@[g], seq![a]),
            final(self).card_actions@ == old(self).card_actions@.insert(a, CardAction { deleted: true, ..old(self).card_actions@[a] }),
            (final(self).animators@, final(self).pending_callbacks@) == ended(
                old(self).animators@,
                old(self).pending_callbacks@,
                old(self).card_actions@[a],
                holds_in(old(self).entities@, a, old(self).card_actions@[a]),
                old(self).entities@[old(self).card_actions@[a].entity].animator,
            ),
            final(self).components == old(self).components,
            final(self).field == old(self).field,
            final(self).time == old(self).time,
            final(self).battle_started == old(self).battle_started,
    {
        let action = self.card_actions.get(a).unwrap();
        let end_callback = action.end_callback;
        let mut doomed: Vec<Handle> = Vec::new();
        let mut i: usize = 0;
        while i < action.attachments.len()
            invariant
                0 <= i <= action.attachments@.len(),
                doomed@.len() == i,
                forall|j: int| 0 <= j < i ==> #[trigger] doomed@[j] == action.attachments@[j].animator_index,
            decreases action.attachments@.len() - i,
        {
            doomed.push(action.attachments[i].animator_index);
            i += 1;
        }
        proof {
            let act = old(self).card_actions@[a];
            assert forall|k: Handle| doomed@.to_set().contains(k) <==> attachment_animators(act).contains(k) by {
                if doomed@.to_set().contains(k) {
                    assert(doomed@.contains(k));
                    let j = choose|j: int| 0 <= j < doomed@.len() && doomed@[j] == k;
                    assert(act.attachments@[j].animator_index == k);
                }
                if attachment_animators(act).contains(k) {
                    let j = choose|j: int| 0 <= j < act.attachments@.len() && #[trigger] act.attachments@[j].animator_index == k;
                    assert(doomed@[j] == k);
                    assert(doomed@.contains(k));
                }
            }
            assert(doomed@.to_set() =~= attachment_animators(act));
        }
        self.release_holder(a);
        let ghost p1 = self.pending_callbacks@;
        if let Some(c) = end_callback {
            self.pending_callbacks.push(c);
        }
        proof {
            assert(self.pending_callbacks@ =~= p1 + optional(end_callback));
        }
        self.remove_animators(&doomed);
        proof {
            assert(seq![a][0] == a);
            assert forall|g: Handle| #[trigger] self.entities@.contains_key(g) implies self.entities@[g].card_action != Some(a) by {
                assert(old(self).entities@.contains_key(g));
            }
        }
        self.mark_deleted(a);
    }
}

impl BattleSimulation {
    /// Moves the tile reservation of entity `h` from `(old_x, old_y)` to the
    /// tile it stands on. Positions off the field are skipped.
    fn move_reservation(&mut self, h: Handle, old_x: i32, old_y: i32, x: i32, y: i32)
        requires
            old(self).wf(),
        ensures
            final(self).wf(),
            final(self).field.cols == old(self).field.cols,
            final(self).field.rows == old(self).field.rows,
            in_bounds(old(self).field.cols, old(self).field.rows, x, y) ==> final(self).field.tiles@[tile_index(
                old(self).field.cols,
                x,
                y,
            )].reservations@.contains(h),
            in_bounds(old(self).field.cols, old(self).field.rows, old_x, old_y) && !(old_x == x && old_y == y)
                ==> !final(self).field.tiles@[tile_index(old(self).field.cols, old_x, old_y)].reservations@.contains(h),
            final(self).entities == old(self).entities,
            final(self).animators == old(self).animators,
            final(self).card_actions == old(self).card_actions,
            final(self).components == old(self).components,
            final(self).pending_callbacks == old(self).pending_callbacks,
            final(self).time == old(self).time,
            final(self).battle_started == old(self).battle_started,
    {
        if let Some(from) = self.field.tile_at(old_x, old_y) {
            self.field.remove_reservation_for(from, h);
            proof {
                assert forall|t: int| 0 <= t < self.field.tiles@.len() implies (
                #[trigger] self.field.tiles@[t]).entity_count == occupants(self.entities@, self.field.cols, t).len() by {
                    assert(old(self).field.tiles@[t].entity_count == self.field.tiles@[t].entity_count);
                }
            }
        }
        let ghost mid = self.field;
        proof {
            if in_bounds(self.field.cols, self.field.rows, x, y) && in_bounds(self.field.cols, self.field.rows, old_x, old_y)
                && !(old_x == x && old_y == y) {
                assert(tile_index(self.field.cols, x, y) != tile_index(self.field.cols, old_x, old_y)) by (nonlinear_arith)
                    requires
                        0 <= x < self.field.cols,
                        0 <= old_x < self.field.cols,
                        0 <= y,
                        0 <= old_y,
                        !(old_x == x && old_y == y),
                ;
            }
        }
        if let Some(to) = self.field.tile_at(x, y) {
            self.field.reserve_for(to, h);
            proof {
                assert forall|t: int| 0 <= t < self.field.tiles@.len() implies (
                #[trigger] self.field.tiles@[t]).entity_count == occupants(self.entities@, self.field.cols, t).len() by {
                    assert(mid.tiles@[t].entity_count == self.field.tiles@[t].entity_count);
                }
                if !mid.tiles@[to as int].reservations@.contains(h) {
                    assert(self.field.tiles@[to as int].reservations@.last() == h);
                    assert(self.field.tiles@[to as int].reservations@.contains(h));
                }
            }
        }
    }

    /// Completes the synchronous card action `a` at the end of its run (see
    /// `end_action`). An owner that reserves its tiles then has its
    /// reservation moved from where the action started to where it stands.
    /// Returns false, changing nothing, when `a` is not a live, undeleted,
    /// synchronous action.
    pub fn complete_sync(&mut self, a: Handle) -> (r: bool)
        requires
            old(self).wf(),
        ensures
            final(self).wf(),
            r == (old(self).card_actions@.contains_key(a) && !old(self).card_actions@[a].deleted
                && !old(self).card_actions@[a].spec_is_async()),
            !r ==> final(self).entities == old(self).entities && final(self).card_actions == old(self).card_actions
                && final(self).pending_callbacks == old(self).pending_callbacks,
            r ==> final(self).entities@.dom() == old(self).entities@.dom(),
            r ==> forall|g: Handle| #[trigger] old(self).entities@.contains_key(g)
                ==> final(self).entities@[g] == released(old(self).entities@[g], seq![a]),
            r ==> final(self).card_actions@ == old(self).card_actions@.insert(a, CardAction { deleted: true, ..old(self).card_actions@[a] }),
            r ==> final(self).pending_callbacks@.take(old(self).pending_callbacks@.len() as int) == old(self).pending_callbacks@,
            r && old(self).card_actions@[a].end_callback.is_some() ==> final(self).pending_callbacks@.last()
                == old(self).card_actions@[a].end_callback.unwrap(),
            r ==> (final(self).animators@, final(self).pending_callbacks@) == ended(
                old(self).animators@,
                old(self).pending_callbacks@,
                old(self).card_actions@[a],
                holds_in(old(self).entities@, a, old(self).card_actions@[a]),
                old(self).entities@[old(self).card_actions@[a].entity].animator,
            ),
            r ==> ({
                let act = old(self).card_actions@[a];
                let e = old(self).entities@[act.entity];
                old(self).entities@.contains_key(act.entity) && e.auto_reserves_tiles && e.card_action == Some(a)
                    && in_bounds(old(self).field.cols, old(self).field.rows, act.old_x, act.old_y)
                    && !(act.old_x == e.x && act.old_y == e.y)
                    ==> !final(self).field.tiles@[tile_index(old(self).field.cols, act.old_x, act.old_y)].reservations@.contains(act.entity)
            }),
            r ==> ({
                let owner = old(self).card_actions@[a].entity;
                let e = old(self).entities@[owner];
                old(self).entities@.contains_key(owner) && e.auto_reserves_tiles && e.card_action == Some(a)
                    && in_bounds(old(self).field.cols, old(self).field.rows, e.x, e.y)
                    ==> final(self).field.tiles@[tile_index(old(self).field.cols, e.x, e.y)].reservations@.contains(owner)
            }),
            final(self).components == old(self).components,
            final(self).time == old(self).time,
    {
        let (owner, old_x, old_y) = match self.card_actions.get(a) {
            Some(action) => {
                if action.deleted || action.is_async() {
                    return false;
                }
                (action.entity, action.old_x, action.old_y)
            },
            None => return false,
        };
        let reserve = match self.entity(owner) {
            Some(e) => {
                if e.auto_reserves_tiles && e.card_action == Some(a) {
                    Some((e.x, e.y))
                } else {
                    None
                }
            },
            None => None,
        };
        self.end_action(a);
        if let Some((x, y)) = reserve {
            self.move_reservation(owner, old_x, old_y, x, y);
        }
        true
    }

    /// Ends every live, undeleted card action among `delete_indices`, in
    /// order (see `end_action`). Others are skipped.
    pub fn delete_card_actions(&mut self, delete_indices: &Vec<Handle>)
        requires
            old(self).wf(),
        ensures
            final(self).wf(),
            final(self).entities@.dom() == old(self).entities@.dom(),
            forall|g: Handle| #[trigger] old(self).entities@.contains_key(g)
                ==> final(self).entities@[g] == released(old(self).entities@[g], delete_indices@),
            final(self).card_actions@.dom() == old(self).card_actions@.dom(),
            forall|a: Handle| #[trigger] old(self).card_actions@.contains_key(a) ==> final(self).card_actions@[a] == (
                if delete_indices@.contains(a) {
                    CardAction { deleted: true, ..old(self).card_actions@[a] }
                } else {
                    old(self).card_actions@[a]
                }),
            (final(self).animators@, final(self).pending_callbacks@) == ended_all(
                delete_indices@,
                old(self).entities@,
                old(self).card_actions@,
                old(self).animators@,
                old(self).pending_callbacks@,
            ),
            final(self).pending_callbacks@.len() >= old(self).pending_callbacks@.len(),
            final(self).pending_callbacks@.take(old(self).pending_callbacks@.len() as int) == old(self).pending_callbacks@,
            final(self).components == old(self).components,
            final(self).field == old(self).field,
            final(self).time == old(self).time,
            final(self).battle_started == old(self).battle_started,
    {
        let ghost m0 = self.entities@;
        let ghost c0 = self.card_actions@;
        let ghost p0 = self.pending_callbacks@;
        let ghost a0 = self.animators@;
        let mut i: usize = 0;
        while i < delete_indices.len()
            invariant
                0 <= i <= delete_indices@.len(),
                self.wf(),
                m0 == old(self).entities@,
                c0 == old(self).card_actions@,
                p0 == old(self).pending_callbacks@,
                self.entities@.dom() == m0.dom(),
                forall|g: Handle| #[trigger] m0.contains_key(g) ==> self.entities@[g] == released(m0[g], delete_indices@.take(i as int)),
                self.card_actions@.dom() == c0.dom(),
                forall|a: Handle| #[trigger] c0.contains_key(a) ==> self.card_actions@[a] == (
                    if delete_indices@.take(i as int).contains(a) {
                        CardAction { deleted: true, ..c0[a] }
                    } else {
                        c0[a]
                    }),
                a0 == old(self).animators@,
                (self.animators@, self.pending_callbacks@) == ended_all(delete_indices@.take(i as int), m0, c0, a0, p0),
                self.pending_callbacks@.len() >= p0.len(),
                self.pending_callbacks@.take(p0.len() as int) == p0,
                self.components == old(self).components,
                self.field == old(self).field,
                self.time == old(self).time,
                self.battle_started == old(self).battle_started,
            decreases delete_indices@.len() - i,
        {
            let a = delete_indices[i];
            let ghost d = delete_indices@;
            proof {
                assert(d.take(i as int + 1) =~= d.take(i as int).push(a));
                assert forall|h: Handle| d.take(i as int + 1).contains(h) <==> (d.take(i as int).contains(h) || h == a) by {
                    if d.take(i as int + 1).contains(h) {
                        let j = choose|j: int| 0 <= j < i + 1 && #[trigger] d.take(i as int + 1)[j] == h;
                        if j < i {
                            assert(d.take(i as int)[j] == h);
                        }
                    }
                    if d.take(i as int).contains(h) {
                        let j = choose|j: int| 0 <= j < i && #[trigger] d.take(i as int)[j] == h;
                        assert(d.take(i as int + 1)[j] == h);
                    }
                    if h == a {
                        assert(d.take(i as int + 1)[i as int] == h);
                    }
                }
            }
            let live = match self.card_actions.get(a) {
                Some(action) => !action.deleted,
                None => false,
            };
            let ghost m1 = self.entities@;
            let ghost c1 = self.card_actions@;
            let ghost p1 = self.pending_callbacks@;
            proof {
                assert(d.take(i as int + 1).drop_last() =~= d.take(i as int));
                assert(d.take(i as int + 1).last() == a);
                if live {
                    assert(!d.take(i as int).contains(a));
                    assert(c1[a] == c0[a]);
                    let act = c0[a];
                    if m0.contains_key(act.entity) {
                        assert(m1[act.entity] == released(m0[act.entity], d.take(i as int)));
                    }
                    assert(holds_in(m1, a, act) == holds_in(m0, a, act));
                } else {
                    if c0.contains_key(a) && !c0[a].deleted {
                        assert(d.take(i as int).contains(a));
                    }
                }
            }
            if live {
                self.end_action(a);
                proof {
                    assert(self.pending_callbacks@.take(p1.len() as int).take(p0.len() as int) =~= self.pending_callbacks@.take(p0.len() as int));
                }
            } else {
                proof {
                    assert forall|g: Handle| #[trigger] m1.contains_key(g) implies m1[g].card_action != Some(a) by {
                        assert(self.entity_ok(g));
                    }
                }
            }
            proof {
                assert(seq![a][0] == a);
                assert forall|g: Handle| #[trigger] m0.contains_key(g) implies self.entities@[g] == released(m0[g], d.take(i as int + 1)) by {
                    if live {
                        assert(self.entities@[g] == released(m1[g], seq![a]));
                    }
                }
                assert forall|b: Handle| #[trigger] c0.contains_key(b) implies self.card_actions@[b] == (
                    if d.take(i as int + 1).contains(b) {
                        CardAction { deleted: true, ..c0[b] }
                    } else {
                        c0[b]
                    }) by {
                    if b == a && !live {
                        assert(c1[b] == c0[b] || c1[b] == CardAction { deleted: true, ..c0[b] });
                    }
                }
            }
            i += 1;
        }
        proof {
            assert(delete_indices@.take(delete_indices@.len() as int) =~= delete_indices@);
        }
    }
}


impl BattleSimulation {
    /// The live, used, undeleted card actions of entity `h`, in some order.
    fn used_actions_of(&self, h: Handle) -> (r: Vec<Handle>)
        ensures
            forall|a: Handle| r@.contains(a) <==> (self.card_actions@.contains_key(a) && self.card_actions@[a].entity == h
                && self.card_actions@[a].used && !self.card_actions@[a].deleted),
    {
        let hs = self.card_actions.handles();
        let mut out: Vec<Handle> = Vec::new();
        let mut i: usize = 0;
        while i < hs.len()
            invariant
                0 <= i <= hs@.len(),
                visit_order(hs@, self.card_actions@),
                forall|a: Handle| out@.contains(a) <==> (hs@.take(i as int).contains(a) && self.card_actions@[a].entity == h
                    && self.card_actions@[a].used && !self.card_actions@[a].deleted),
            decreases hs@.len() - i,
        {
            let a = hs[i];
            proof {
                lemma_take_step(hs@, i as int);
                assert(hs@.contains(a));
            }
            let action = self.card_actions.get(a).unwrap();
            let ghost before = out@;
            if action.entity == h && action.used && !action.deleted {
                out.push(a);
            }
            proof {
                assert forall|b: Handle| out@.contains(b) <==> (hs@.take(i as int + 1).contains(b) && self.card_actions@[b].entity == h
                    && self.card_actions@[b].used && !self.card_actions@[b].deleted) by {
                    if out@.contains(b) && !before.contains(b) {
                        assert(b == a) by {
                            let j = choose|j: int| 0 <= j < out@.len() && out@[j] == b;
                            if j < before.len() {
                                assert(before[j] == b);
                            }
                        }
                    }
                    if before.contains(b) {
                        let j = choose|j: int| 0 <= j < before.len() && before[j] == b;
                        assert(out@[j] == b);
                    }
                    if b == a && hs@.take(i as int + 1).contains(b) && self.card_actions@[b].entity == h
                        && self.card_actions@[b].used && !self.card_actions@[b].deleted {
                        assert(out@[out@.len() - 1] == a);
                    }
                }
            }
            i += 1;
        }
        proof {
            assert(hs@.take(hs@.len() as int) =~= hs@);
        }
        out
    }

    /// Marks the unheld entity `h` deleted and queues its delete callbacks,
    /// then its delete callback.
    fn mark_entity_deleted(&mut self, h: Handle)
        requires
            old(self).wf(),
            old(self).entities@.contains_key(h),
            old(self).entities@[h].card_action.is_none(),
        ensures
            final(self).wf(),
            final(self).entities@ == old(self).entities@.insert(h, Entity {
                deleted: true,
                delete_callbacks: final(self).entities@[h].delete_callbacks,
                ..old(self).entities@[h]
            }),
            final(self).entities@[h].delete_callbacks@.len() == 0,
            final(self).pending_callbacks@ == old(self).pending_callbacks@ + old(self).entities@[h].delete_callbacks@
                + optional(old(self).entities@[h].delete_callback),
            final(self).animators == old(self).animators,
            final(self).card_actions == old(self).card_actions,
            final(self).components == old(self).components,
            final(self).field == old(self).field,
            final(self).time == old(self).time,
    {
        let animator = self.entity(h).unwrap().animator;
        let ghost m0 = self.entities@;
        let mut e = self.entities.replace(h, Entity::new(h, EntityKind::Artifact, animator)).unwrap();
        e.deleted = true;
        let mut callbacks: Vec<Callback> = Vec::new();
        std::mem::swap(&mut callbacks, &mut e.delete_callbacks);
        let delete_callback = e.delete_callback;
        self.entities.set(h, e);
        proof {
            assert(self.entities@ =~= m0.insert(h, e));
            assert forall|t: int| 0 <= t < self.field.tiles@.len() implies (
            #[trigger] self.field.tiles@[t]).entity_count == occupants(
                self.entities@,
                self.field.cols,
                t,
            ).len() by {
                lemma_occupants_insert(m0, h, e, self.field.cols, t);
            }
            assert forall|g: Handle| #[trigger] self.entities@.contains_key(g) implies self.entity_ok(g) by {
                assert(old(self).entity_ok(g));
            }
        }
        let ghost p0 = self.pending_callbacks@;
        self.pending_callbacks.append(&mut callbacks);
        if let Some(c) = delete_callback {
            self.pending_callbacks.push(c);
        }
        proof {
            assert(self.pending_callbacks@ =~= p0 + m0[h].delete_callbacks@ + optional(m0[h].delete_callback));
        }
    }

    /// Marks entity `h` deleted and tears down its card actions before its
    /// delete listeners run: every used, undeleted action of `h` is ended
    /// (see `ended`), the one holding `h` first, so that its animation is
    /// reverted and its end callback queued before anything else; then the
    /// delete callbacks of `h` are queued, followed by its delete callback.
    /// The entity and its actions stay in their arenas until cleanup. A
    /// missing or already deleted entity is left alone.
    #[verifier::rlimit(100)]
    pub fn delete_entity(&mut self, h: Handle)
        requires
            old(self).wf(),
        ensures
            final(self).wf(),
            !(old(self).entities@.contains_key(h) && !old(self).entities@[h].deleted) ==> *final(self) == *old(self),
            old(self).entities@.contains_key(h) && !old(self).entities@[h].deleted ==> ({
                let e = old(self).entities@[h];
                &&& final(self).entities@.dom() == old(self).entities@.dom()
                &&& forall|g: Handle| g != h && #[trigger] old(self).entities@.contains_key(g)
                    ==> final(self).entities@[g] == old(self).entities@[g]
                &&& final(self).entities@[h] == (Entity {
                    deleted: true,
                    card_action: None,
                    delete_callbacks: final(self).entities@[h].delete_callbacks,
                    ..e
                })
                &&& final(self).entities@[h].delete_callbacks@.len() == 0
                &&& final(self).card_actions@.dom() == old(self).card_actions@.dom()
                &&& forall|a: Handle| #[trigger] old(self).card_actions@.contains_key(a) ==> final(self).card_actions@[a] == (
                    if owned_used(old(self).card_actions@, h, a) {
                        CardAction { deleted: true, ..old(self).card_actions@[a] }
                    } else {
                        old(self).card_actions@[a]
                    })
                &&& exists|idx: Seq<Handle>|
                    (forall|a: Handle| idx.contains(a) <==> owned_used(old(self).card_actions@, h, a))
                    && (e.card_action.is_some() ==> idx.len() > 0 && idx[0] == e.card_action.unwrap())
                    && #[trigger] ended_all(idx, old(self).entities@, old(self).card_actions@, old(self).animators@,
                        old(self).pending_callbacks@).0 == final(self).animators@
                    && final(self).pending_callbacks@ == ended_all(idx, old(self).entities@, old(self).card_actions@,
                        old(self).animators@, old(self).pending_callbacks@).1 + e.delete_callbacks@ + optional(e.delete_callback)
            }),
            final(self).components == old(self).components,
            final(self).field == old(self).field,
            final(self).time == old(self).time,
    {
        let (animator, deleted, held) = match self.entity(h) {
            None => return,
            Some(e) => (e.animator, e.deleted, e.card_action),
        };
        if deleted {
            return;
        }
        let mut all = self.used_actions_of(h);
        let ghost all0 = all@;
        let mut indices: Vec<Handle> = Vec::new();
        if let Some(a) = held {
            indices.push(a);
        }
        indices.append(&mut all);
        proof {
            assert(old(self).entity_ok(h));
            assert forall|a: Handle| indices@.contains(a) <==> owned_used(old(self).card_actions@, h, a) by {
                if held == Some(a) {
                    assert(indices@[0] == a);
                }
                if indices@.contains(a) && held != Some(a) {
                    let j = choose|j: int| 0 <= j < indices@.len() && indices@[j] == a;
                    if held.is_some() {
                        assert(j >= 1);
                        assert(indices@[j] == all0[j - 1]);
                        assert(all0.contains(a));
                    } else {
                        assert(indices@[j] == all0[j]);
                        assert(all0.contains(a));
                    }
                }
                if all0.contains(a) {
                    let j = choose|j: int| 0 <= j < all0.len() && all0[j] == a;
                    if held.is_some() {
                        assert(indices@[j + 1] == a);
                    } else {
                        assert(indices@[j] == a);
                    }
                }
            }
        }
        self.delete_card_actions(&indices);
        let ghost mid = self.pending_callbacks@;
        let ghost m0 = self.entities@;
        proof {
            assert forall|g: Handle| g != h && #[trigger] old(self).entities@.contains_key(g)
                implies m0[g] == old(self).entities@[g] by {
                assert(old(self).entity_ok(g));
                let eg = old(self).entities@[g];
                if eg.card_action.is_some() && indices@.contains(eg.card_action.unwrap()) {
                    assert(owned_used(old(self).card_actions@, h, eg.card_action.unwrap()));
                }
            }
            if held.is_some() {
                assert(indices@.contains(held.unwrap())) by {
                    assert(indices@[0] == held.unwrap());
                }
            }
        }
        self.mark_entity_deleted(h);
        proof {
            let oe = old(self).entities@[h];
            let done = ended_all(indices@, old(self).entities@, old(self).card_actions@, old(self).animators@,
                old(self).pending_callbacks@);
            assert(done.0 == self.animators@);
            assert(done.1 == mid);
            assert(self.pending_callbacks@ == done.1 + oe.delete_callbacks@ + optional(oe.delete_callback));
            if oe.card_action.is_some() {
                assert(indices@.len() > 0 && indices@[0] == oe.card_action.unwrap());
            }
            assert(self.entities@.dom() =~= old(self).entities@.dom());
            assert(m0[h] == released(oe, indices@));
            assert(self.entities@[h] == (Entity {
                deleted: true,
                card_action: None,
                delete_callbacks: self.entities@[h].delete_callbacks,
                ..oe
            }));
            assert forall|g: Handle| g != h && #[trigger] old(self).entities@.contains_key(g)
                implies self.entities@[g] == old(self).entities@[g] by {
                assert(m0[g] == old(self).entities@[g]);
            }
            assert forall|a: Handle| #[trigger] old(self).card_actions@.contains_key(a) implies self.card_actions@[a] == (
                if owned_used(old(self).card_actions@, h, a) {
                    CardAction { deleted: true, ..old(self).card_actions@[a] }
                } else {
                    old(self).card_actions@[a]
                }) by {
                assert(indices@.contains(a) == owned_used(old(self).card_actions@, h, a));
            }
        }
    }

    /// Marks entity `h` erased, so that the next cleanup removes it. Returns
    /// whether `h` is live.
    pub fn erase_entity(&mut self, h: Handle) -> (r: bool)
        requires
            old(self).wf(),
        ensures
            final(self).wf(),
            r == old(self).entities@.contains_key(h),
            r ==> final(self).entities@ == old(self).entities@.insert(h, Entity { erased: true, ..old(self).entities@[h] }),
            !r ==> final(self).entities == old(self).entities,
            same_but_entities(*old(self), *final(self)),
    {
        let animator = match self.entity(h) {
            None => return false,
            Some(e) => e.animator,
        };
        let ghost m0 = self.entities@;
        let mut e = self.entities.replace(h, Entity::new(h, EntityKind::Artifact, animator)).unwrap();
        e.erased = true;
        self.entities.set(h, e);
        proof {
            assert(self.entities@ =~= m0.insert(h, e));
            assert forall|t: int| 0 <= t < self.field.tiles@.len() implies (
            #[trigger] self.field.tiles@[t]).entity_count == occupants(
                self.entities@,
                self.field.cols,
                t,
            ).len() by {
                lemma_occupants_insert(m0, h, e, self.field.cols, t);
            }
            assert forall|g: Handle| #[trigger] self.entities@.contains_key(g) implies self.entity_ok(g) by {
                assert(old(self).entity_ok(g));
            }
        }
        true
    }
}


/// `list` with the element at `i` replaced by the last one, and shortened.
pub open spec fn swap_removed(list: Seq<Handle>, i: int) -> Seq<Handle> {
    list.update(i, list.last()).drop_last()
}

impl BattleSimulation {
    /// Moves entity `h` to the tile `(x, y)`, keeping tile counts in step.
    /// Refused when `h` is not live or `(x, y)` is off the field.
    pub fn move_entity(&mut self, h: Handle, x: i32, y: i32) -> (r: bool)
        requires
            old(self).wf(),
        ensures
            final(self).wf(),
            r == (old(self).entities@.contains_key(h) && in_bounds(old(self).field.cols, old(self).field.rows, x, y)),
            r ==> final(self).entities@ == old(self).entities@.insert(h, Entity { x, y, ..old(self).entities@[h] }),
            !r ==> final(self).entities == old(self).entities,
            final(self).field.cols == old(self).field.cols && final(self).field.rows == old(self).field.rows,
            final(self).animators == old(self).animators,
            final(self).card_actions == old(self).card_actions,
            final(self).components == old(self).components,
            final(self).pending_callbacks == old(self).pending_callbacks,
            final(self).time == old(self).time,
    {
        let (animator, spawned, ox, oy) = match self.entity(h) {
            None => return false,
            Some(e) => (e.animator, e.spawned, e.x, e.y),
        };
        let to = match self.field.tile_at(x, y) {
            None => return false,
            Some(t) => t,
        };
        let ghost m0 = self.entities@;
        let ghost f0 = self.field;
        proof {
            assert(old(self).entity_ok(h));
        }
        if spawned {
            let from = self.field.tile_at(ox, oy).unwrap();
            proof {
                assert(occupants(m0, f0.cols, from as int).contains(h));
                lemma_occupants_finite(m0, f0.cols, from as int);
            }
            self.field.remove_occupant(from);
            proof {
                let occ = occupants(m0, f0.cols, to as int);
                lemma_occupants_finite(m0, f0.cols, to as int);
                if to != from {
                    assert(occ.subset_of(m0.dom().remove(h)));
                    lemma_len_subset(occ, m0.dom().remove(h));
                }
            }
            // the live count bounds the tile count below `usize::MAX`
            let _live = self.entities.len();
            self.field.add_occupant(to);
        }
        let mut e = self.entities.replace(h, Entity::new(h, EntityKind::Artifact, animator)).unwrap();
        e.x = x;
        e.y = y;
        self.entities.set(h, e);
        proof {
            assert(self.entities@ =~= m0.insert(h, e));
            assert forall|t: int| 0 <= t < self.field.tiles@.len() implies (
            #[trigger] self.field.tiles@[t]).entity_count == occupants(
                self.entities@,
                self.field.cols,
                t,
            ).len() by {
                lemma_occupants_insert(m0, h, e, self.field.cols, t);
            }
            assert forall|g: Handle| #[trigger] self.entities@.contains_key(g) implies self.entity_ok(g) by {
                assert(old(self).entity_ok(g));
            }
        }
        true
    }

    /// Attaches a component with `callback` to entity `h`. A locally owned
    /// component is also tracked by its owner. Refused when `h` is not live.
    pub fn attach_component(&mut self, h: Handle, callback: Callback, lifetime: ComponentLifetime) -> (r: Option<Handle>)
        requires
            old(self).wf(),
        ensures
            final(self).wf(),
            r.is_some() == old(self).entities@.contains_key(h),
            r.is_none() ==> final(self).entities == old(self).entities && final(self).components == old(self).components,
            r.is_some() ==> !old(self).components@.contains_key(r.unwrap()),
            r.is_some() ==> final(self).components@ == old(self).components@.insert(
                r.unwrap(),
                Component { entity: h, update_callback: callback, lifetime },
            ),
            r.is_some() ==> final(self).entities@ == old(self).entities@.insert(h, Entity {
                local_components: final(self).entities@[h].local_components,
                ..old(self).entities@[h]
            }),
            r.is_some() ==> final(self).entities@[h].local_components@ == if lifetime == ComponentLifetime::Local {
                old(self).entities@[h].local_components@.push(r.unwrap())
            } else {
                old(self).entities@[h].local_components@
            },
            final(self).animators == old(self).animators,
            final(self).card_actions == old(self).card_actions,
            final(self).pending_callbacks == old(self).pending_callbacks,
            final(self).field == old(self).field,
            final(self).time == old(self).time,
    {
        let animator = match self.entity(h) {
            None => return None,
            Some(e) => e.animator,
        };
        let c = self.components.insert(Component { entity: h, update_callback: callback, lifetime });
        let ghost m0 = self.entities@;
        let mut e = self.entities.replace(h, Entity::new(h, EntityKind::Artifact, animator)).unwrap();
        if lifetime == ComponentLifetime::Local {
            e.local_components.push(c);
        }
        self.entities.set(h, e);
        proof {
            assert(self.entities@ =~= m0.insert(h, e));
            assert forall|t: int| 0 <= t < self.field.tiles@.len() implies (
            #[trigger] self.field.tiles@[t]).entity_count == occupants(
                self.entities@,
                self.field.cols,
                t,
            ).len() by {
                lemma_occupants_insert(m0, h, e, self.field.cols, t);
            }
            assert forall|g: Handle| #[trigger] self.entities@.contains_key(g) implies self.entity_ok(g) by {
                assert(old(self).entity_ok(g));
            }
        }
        Some(c)
    }

    /// Ejects component `c`. A locally owned component also leaves its live
    /// owner's list: the first entry for it is replaced by the last entry.
    /// Returns whether `c` was live.
    pub fn eject_component(&mut self, c: Handle) -> (r: bool)
        requires
            old(self).wf(),
        ensures
            final(self).wf(),
            r == old(self).components@.contains_key(c),
            final(self).components@ == old(self).components@.remove(c),
            !r ==> final(self).entities == old(self).entities,
            r ==> ({
                let comp = old(self).components@[c];
                let owner = comp.entity;
                if comp.lifetime == ComponentLifetime::Local && old(self).entities@.contains_key(owner)
                    && old(self).entities@[owner].local_components@.contains(c) {
                    let list = old(self).entities@[owner].local_components@;
                    &&& final(self).entities@.dom() == old(self).entities@.dom()
                    &&& forall|g: Handle| g != owner && #[trigger] old(self).entities@.contains_key(g) ==> final(self).entities@[g] == old(self).entities@[g]
                    &&& final(self).entities@[owner] == (Entity { local_components: final(self).entities@[owner].local_components, ..old(self).entities@[owner] })
                    &&& exists|i: int| 0 <= i < list.len() && list[i] == c && (forall|j: int| 0 <= j < i ==> list[j] != c)
                        && #[trigger] final(self).entities@[owner].local_components@ == swap_removed(list, i)
                } else {
                    final(self).entities == old(self).entities
                }
            }),
            final(self).animators == old(self).animators,
            final(self).card_actions == old(self).card_actions,
            final(self).pending_callbacks == old(self).pending_callbacks,
            final(self).field == old(self).field,
            final(self).time == old(self).time,
    {
        let comp = match self.components.remove(c) {
            None => return false,
            Some(comp) => comp,
        };
        if comp.lifetime != ComponentLifetime::Local {
            return true;
        }
        let owner = comp.entity;
        let animator = match self.entity(owner) {
            None => return true,
            Some(e) => e.animator,
        };
        let e = self.entity(owner).unwrap();
        let mut i: usize = 0;
        while i < e.local_components.len() && e.local_components[i] != c
            invariant
                0 <= i <= e.local_components@.len(),
                forall|j: int| 0 <= j < i ==> e.local_components@[j] != c,
            decreases e.local_components@.len() - i,
        {
            i += 1;
        }
        if i == e.local_components.len() {
            return true;
        }
        let ghost m0 = self.entities@;
        let ghost list = e.local_components@;
        let mut e2 = self.entities.replace(owner, Entity::new(owner, EntityKind::Artifact, animator)).unwrap();
        e2.local_components.swap_remove(i);
        proof {
            assert(e2.local_components@ =~= swap_removed(list, i as int));
        }
        self.entities.set(owner, e2);
        proof {
            assert(self.entities@ =~= m0.insert(owner, e2));
            assert forall|t: int| 0 <= t < self.field.tiles@.len() implies (
            #[trigger] self.field.tiles@[t]).entity_count == occupants(
                self.entities@,
                self.field.cols,
                t,
            ).len() by {
                lemma_occupants_insert(m0, owner, e2, self.field.cols, t);
            }
            assert forall|g: Handle| #[trigger] self.entities@.contains_key(g) implies self.entity_ok(g) by {
                assert(old(self).entity_ok(g));
            }
        }
        true
    }

    /// Adds `rule` to the defense rules of entity `h` (see
    /// `DefenseRule::add`) and hands back the rule it replaced, which is owed
    /// its one "replaced" notification. Nothing changes when `h` is not a
    /// live entity that can take damage.
    pub fn add_defense_rule(&mut self, h: Handle, rule: DefenseRule) -> (r: Option<DefenseRule>)
        requires
            old(self).wf(),
        ensures
            final(self).wf(),
            !(old(self).entities@.contains_key(h) && old(self).entities@[h].living.is_some()) ==> r.is_none()
                && final(self).entities == old(self).entities,
            old(self).entities@.contains_key(h) && old(self).entities@[h].living.is_some() ==> ({
                let before = old(self).entities@[h].living.unwrap();
                let after = final(self).entities@[h].living.unwrap();
                &&& final(self).entities@.dom() == old(self).entities@.dom()
                &&& forall|g: Handle| g != h && #[trigger] old(self).entities@.contains_key(g) ==> final(self).entities@[g] == old(self).entities@[g]
                &&& final(self).entities@[h] == (Entity { living: final(self).entities@[h].living, ..old(self).entities@[h] })
                &&& final(self).entities@[h].living.is_some()
                &&& (after.defense_rules@, r) == added(before.defense_rules@, rule)
                &&& after.health == before.health && after.max_health == before.max_health
            }),
            same_but_entities(*old(self), *final(self)),
    {
        let animator = match self.entity(h) {
            None => return None,
            Some(e) => {
                if e.living.is_none() {
                    return None;
                }
                e.animator
            },
        };
        let ghost m0 = self.entities@;
        let mut e = self.entities.replace(h, Entity::new(h, EntityKind::Artifact, animator)).unwrap();
        let mut slot: Option<Living> = None;
        std::mem::swap(&mut slot, &mut e.living);
        let mut living = slot.unwrap();
        let replaced = DefenseRule::add(&mut living.defense_rules, rule);
        e.living = Some(living);
        self.entities.set(h, e);
        proof {
            assert(self.entities@ =~= m0.insert(h, e));
            assert forall|t: int| 0 <= t < self.field.tiles@.len() implies (
            #[trigger] self.field.tiles@[t]).entity_count == occupants(
                self.entities@,
                self.field.cols,
                t,
            ).len() by {
                lemma_occupants_insert(m0, h, e, self.field.cols, t);
            }
            assert forall|g: Handle| #[trigger] self.entities@.contains_key(g) implies self.entity_ok(g) by {
                assert(old(self).entity_ok(g));
            }
        }
        replaced
    }

    /// Removes the rule `table` of script context `vm_index` at tier
    /// `priority` from entity `h` (see `DefenseRule::remove`). Returns
    /// whether a rule was removed.
    pub fn remove_defense_rule(&mut self, h: Handle, vm_index: usize, priority: DefensePriority, table: u64) -> (r: bool)
        requires
            old(self).wf(),
        ensures
            final(self).wf(),
            !(old(self).entities@.contains_key(h) && old(self).entities@[h].living.is_some()) ==> !r
                && final(self).entities == old(self).entities,
            old(self).entities@.contains_key(h) && old(self).entities@[h].living.is_some() ==> ({
                let before = old(self).entities@[h].living.unwrap();
                let after = final(self).entities@[h].living.unwrap();
                &&& final(self).entities@.dom() == old(self).entities@.dom()
                &&& forall|g: Handle| g != h && #[trigger] old(self).entities@.contains_key(g) ==> final(self).entities@[g] == old(self).entities@[g]
                &&& final(self).entities@[h] == (Entity { living: final(self).entities@[h].living, ..old(self).entities@[h] })
                &&& final(self).entities@[h].living.is_some()
                &&& after.defense_rules@ == removed(before.defense_rules@, vm_index, priority, table)
                &&& r == (after.defense_rules@.len() < before.defense_rules@.len())
            }),
            same_but_entities(*old(self), *final(self)),
    {
        let animator = match self.entity(h) {
            None => return false,
            Some(e) => {
                if e.living.is_none() {
                    return false;
                }
                e.animator
            },
        };
        let ghost m0 = self.entities@;
        let mut e = self.entities.replace(h, Entity::new(h, EntityKind::Artifact, animator)).unwrap();
        let mut slot: Option<Living> = None;
        std::mem::swap(&mut slot, &mut e.living);
        let mut living = slot.unwrap();
        let r = DefenseRule::remove(&mut living.defense_rules, vm_index, priority, table);
        e.living = Some(living);
        self.entities.set(h, e);
        proof {
            assert(self.entities@ =~= m0.insert(h, e));
            assert forall|t: int| 0 <= t < self.field.tiles@.len() implies (
            #[trigger] self.field.tiles@[t]).entity_count == occupants(
                self.entities@,
                self.field.cols,
                t,
            ).len() by {
                lemma_occupants_insert(m0, h, e, self.field.cols, t);
            }
            assert forall|g: Handle| #[trigger] self.entities@.contains_key(g) implies self.entity_ok(g) by {
                assert(old(self).entity_ok(g));
            }
        }
        r
    }
}


/// `b` holds what `a` holds: the same handles in every arena, each resolving
/// to a copy of its value, and copies of everything else.
pub open spec fn same_simulation(a: BattleSimulation, b: BattleSimulation) -> bool {
    &&& a.battle_started == b.battle_started
    &&& a.inputs@ == b.inputs@
    &&& a.time == b.time
    &&& a.battle_time == b.battle_time
    &&& same_field(a.field, b.field)
    &&& a.entities@.dom() == b.entities@.dom()
    &&& forall|h: Handle| #[trigger] a.entities@.contains_key(h) ==> same_entity(a.entities@[h], b.entities@[h])
    &&& a.queued_attacks@ == b.queued_attacks@
    &&& a.defense_judge == b.defense_judge
    &&& a.animators@.dom() == b.animators@.dom()
    &&& forall|k: Handle| #[trigger] a.animators@.contains_key(k) ==> same_animator(a.animators@[k], b.animators@[k])
    &&& a.card_actions@.dom() == b.card_actions@.dom()
    &&& forall|k: Handle| #[trigger] a.card_actions@.contains_key(k) ==> same_action(a.card_actions@[k], b.card_actions@[k])
    &&& a.components@ == b.components@
    &&& a.pending_callbacks@ == b.pending_callbacks@
    &&& a.local_player_id == b.local_player_id
    &&& a.player_spawn_positions@ == b.player_spawn_positions@
    &&& a.perspective_flipped == b.perspective_flipped
    &&& a.intro_complete == b.intro_complete
    &&& a.stale == b.stale
    &&& a.exit == b.exit
}

/// A snapshot of a well-formed battle is well formed.
pub proof fn lemma_snapshot_wf(a: BattleSimulation, b: BattleSimulation)
    requires
        a.wf(),
        same_simulation(a, b),
    ensures
        b.wf(),
{
    assert forall|h: Handle| #[trigger] b.entities@.contains_key(h) implies b.entity_ok(h) by {
        assert(a.entity_ok(h));
        assert(same_entity(a.entities@[h], b.entities@[h]));
        let e = a.entities@[h];
        if e.card_action.is_some() {
            assert(same_action(a.card_actions@[e.card_action.unwrap()], b.card_actions@[e.card_action.unwrap()]));
        }
    }
    assert forall|k: Handle| #[trigger] b.animators@.contains_key(k) implies b.animators@[k].wf() by {
        lemma_same_animator_wf(a.animators@[k], b.animators@[k]);
    }
    assert forall|t: int| 0 <= t < b.field.tiles@.len() implies (#[trigger] b.field.tiles@[t]).entity_count
        == occupants(b.entities@, b.field.cols, t).len() by {
        assert(crate::field::same_tile(a.field.tiles@[t], b.field.tiles@[t]));
        assert forall|h: Handle| #[trigger] b.entities@.contains_key(h) implies counted(b.entities@[h], b.field.cols, t)
            == counted(a.entities@[h], a.field.cols, t) by {
            assert(same_entity(a.entities@[h], b.entities@[h]));
        }
        assert(occupants(b.entities@, b.field.cols, t) =~= occupants(a.entities@, a.field.cols, t));
    }
}

impl Clone for BattleSimulation {
    /// A snapshot: an independent deep copy of the whole battle, fit for a
    /// rollback history.
    fn clone(&self) -> (r: BattleSimulation)
        ensures
            same_simulation(*self, r),
    {
        let inputs = self.inputs.clone();
        let queued_attacks = self.queued_attacks.clone();
        let pending_callbacks = self.pending_callbacks.clone();
        let player_spawn_positions = self.player_spawn_positions.clone();
        let components = self.components.duplicate();
        proof {
            assert(inputs@ =~= self.inputs@);
            assert(queued_attacks@ =~= self.queued_attacks@);
            assert(pending_callbacks@ =~= self.pending_callbacks@);
            assert(player_spawn_positions@ =~= self.player_spawn_positions@);
            assert(components@ =~= self.components@);
        }
        BattleSimulation {
            battle_started: self.battle_started,
            inputs,
            time: self.time,
            battle_time: self.battle_time,
            field: self.field.clone(),
            entities: self.entities.duplicate(),
            queued_attacks,
            defense_judge: self.defense_judge,
            animators: self.animators.duplicate(),
            card_actions: self.card_actions.duplicate(),
            components,
            pending_callbacks,
            local_player_id: self.local_player_id,
            player_spawn_positions,
            perspective_flipped: self.perspective_flipped,
            intro_complete: self.intro_complete,
            stale: self.stale,
            exit: self.exit,
        }
    }
}

impl BattleSimulation {
    /// Replaces the whole battle with `snapshot`.
    pub fn restore_from(&mut self, snapshot: BattleSimulation)
        ensures
            *final(self) == snapshot,
    {
        *self = snapshot;
    }

    /// Stores the inputs of the coming frame.
    pub fn set_inputs(&mut self, inputs: Vec<PlayerInput>)
        requires
            old(self).wf(),
        ensures
            final(self).wf(),
            final(self).inputs == inputs,
            final(self).entities == old(self).entities,
            final(self).animators == old(self).animators,
            final(self).card_actions == old(self).card_actions,
            final(self).components == old(self).components,
            final(self).pending_callbacks == old(self).pending_callbacks,
            final(self).field == old(self).field,
            final(self).time == old(self).time,
    {
        self.inputs = inputs;
    }
}


/// Tile occupancy: in every well-formed battle, and so after every operation
/// of this module, each tile counts exactly the spawned entities standing on
/// it.
pub proof fn lemma_tile_occupancy(sim: BattleSimulation, t: int)
    requires
        sim.wf(),
        0 <= t < sim.field.tiles@.len(),
    ensures
        sim.field.tiles@[t].entity_count == sim.entities@.dom().filter(
            |h: Handle| sim.entities@[h].spawned && tile_index(sim.field.cols, sim.entities@[h].x, sim.entities@[h].y) == t,
        ).len(),
{
    assert(sim.entities@.dom().filter(
        |h: Handle| sim.entities@[h].spawned && tile_index(sim.field.cols, sim.entities@[h].x, sim.entities@[h].y) == t,
    ) =~= occupants(sim.entities@, sim.field.cols, t));
}

/// Card-action exclusivity: an entity is held by at most one card action,
/// and that one is a live, undeleted, synchronous action of its own.
/// Asynchronous actions never hold their owner, so any number of them may run
/// beside it.
pub proof fn lemma_card_action_exclusive(sim: BattleSimulation, h: Handle, a: Handle, b: Handle)
    requires
        sim.wf(),
        sim.entities@.contains_key(h),
        sim.entities@[h].card_action == Some(a),
        sim.entities@[h].card_action == Some(b),
    ensures
        a == b,
        sim.card_actions@.contains_key(a),
        sim.card_actions@[a].entity == h,
        !sim.card_actions@[a].spec_is_async(),
        !sim.card_actions@[a].deleted,
{
    assert(sim.entity_ok(h));
}


impl BattleSimulation {
    /// Entity `h`, if it is live.
    pub fn entity(&self, h: Handle) -> (r: Option<&Entity>)
        ensures
            r.is_some() == self.entities@.contains_key(h),
            r.is_some() ==> *r.unwrap() == self.entities@[h],
    {
        self.entities.get(h)
    }

    /// Animator `k`, if it is live.
    pub fn animator(&self, k: Handle) -> (r: Option<&Animator>)
        ensures
            r.is_some() == self.animators@.contains_key(k),
            r.is_some() ==> *r.unwrap() == self.animators@[k],
    {
        self.animators.get(k)
    }

    /// Card action `a`, if it is live.
    pub fn card_action(&self, a: Handle) -> (r: Option<&CardAction>)
        ensures
            r.is_some() == self.card_actions@.contains_key(a),
            r.is_some() ==> *r.unwrap() == self.card_actions@[a],
    {
        self.card_actions.get(a)
    }

    /// Component `c`, if it is live.
    pub fn component(&self, c: Handle) -> (r: Option<&Component>)
        ensures
            r.is_some() == self.components@.contains_key(c),
            r.is_some() ==> *r.unwrap() == self.components@[c],
    {
        self.components.get(c)
    }

    /// Asks for the unspawned entity `h` to be placed on `(x, y)` by the next
    /// spawn pass. Refused for an entity that is missing or already spawned.
    pub fn queue_spawn(&mut self, h: Handle, x: i32, y: i32) -> (r: bool)
        requires
            old(self).wf(),
        ensures
            final(self).wf(),
            r == (old(self).entities@.contains_key(h) && !old(self).entities@[h].spawned),
            r ==> final(self).entities@ == old(self).entities@.insert(h, Entity { x, y, pending_spawn: true, ..old(self).entities@[h] }),
            !r ==> final(self).entities == old(self).entities,
            same_but_entities(*old(self), *final(self)),
    {
        let animator = match self.entity(h) {
            None => return false,
            Some(e) => {
                if e.spawned {
                    return false;
                }
                e.animator
            },
        };
        let ghost m0 = self.entities@;
        let mut e = self.entities.replace(h, Entity::new(h, EntityKind::Artifact, animator)).unwrap();
        e.x = x;
        e.y = y;
        e.pending_spawn = true;
        self.entities.set(h, e);
        proof {
            assert(self.entities@ =~= m0.insert(h, e));
            assert forall|t: int| 0 <= t < self.field.tiles@.len() implies (
            #[trigger] self.field.tiles@[t]).entity_count == occupants(
                self.entities@,
                self.field.cols,
                t,
            ).len() by {
                lemma_occupants_insert(m0, h, e, self.field.cols, t);
            }
            assert forall|g: Handle| #[trigger] self.entities@.contains_key(g) implies self.entity_ok(g) by {
                assert(old(self).entity_ok(g));
            }
        }
        true
    }

    /// Sets the spawn, battle-start and delete callbacks of entity `h`.
    /// Returns whether `h` is live.
    pub fn set_entity_callbacks(
        &mut self,
        h: Handle,
        spawn: Option<Callback>,
        battle_start: Option<Callback>,
        delete: Option<Callback>,
    ) -> (r: bool)
        requires
            old(self).wf(),
        ensures
            final(self).wf(),
            r == old(self).entities@.contains_key(h),
            r ==> final(self).entities@ == old(self).entities@.insert(h, Entity {
                spawn_callback: spawn,
                battle_start_callback: battle_start,
                delete_callback: delete,
                ..old(self).entities@[h]
            }),
            !r ==> final(self).entities == old(self).entities,
            same_but_entities(*old(self), *final(self)),
    {
        let animator = match self.entity(h) {
            None => return false,
            Some(e) => e.animator,
        };
        let ghost m0 = self.entities@;
        let mut e = self.entities.replace(h, Entity::new(h, EntityKind::Artifact, animator)).unwrap();
        e.spawn_callback = spawn;
        e.battle_start_callback = battle_start;
        e.delete_callback = delete;
        self.entities.set(h, e);
        proof {
            assert(self.entities@ =~= m0.insert(h, e));
            assert forall|t: int| 0 <= t < self.field.tiles@.len() implies (
            #[trigger] self.field.tiles@[t]).entity_count == occupants(
                self.entities@,
                self.field.cols,
                t,
            ).len() by {
                lemma_occupants_insert(m0, h, e, self.field.cols, t);
            }
            assert forall|g: Handle| #[trigger] self.entities@.contains_key(g) implies self.entity_ok(g) by {
                assert(old(self).entity_ok(g));
            }
        }
        true
    }

    /// Adds a listener to the deletion of entity `h`. Returns whether `h` is
    /// live.
    pub fn add_delete_listener(&mut self, h: Handle, callback: Callback) -> (r: bool)
        requires
            old(self).wf(),
        ensures
            final(self).wf(),
            r == old(self).entities@.contains_key(h),
            r ==> final(self).entities@.dom() == old(self).entities@.dom(),
            r ==> forall|g: Handle| g != h && #[trigger] old(self).entities@.contains_key(g) ==> final(self).entities@[g] == old(self).entities@[g],
            r ==> final(self).entities@[h] == (Entity { delete_callbacks: final(self).entities@[h].delete_callbacks, ..old(self).entities@[h] }),
            r ==> final(self).entities@[h].delete_callbacks@ == old(self).entities@[h].delete_callbacks@.push(callback),
            !r ==> final(self).entities == old(self).entities,
            same_but_entities(*old(self), *final(self)),
    {
        let animator = match self.entity(h) {
            None => return false,
            Some(e) => e.animator,
        };
        let ghost m0 = self.entities@;
        let mut e = self.entities.replace(h, Entity::new(h, EntityKind::Artifact, animator)).unwrap();
        e.delete_callbacks.push(callback);
        self.entities.set(h, e);
        proof {
            assert(self.entities@ =~= m0.insert(h, e));
            assert forall|t: int| 0 <= t < self.field.tiles@.len() implies (
            #[trigger] self.field.tiles@[t]).entity_count == occupants(
                self.entities@,
                self.field.cols,
                t,
            ).len() by {
                lemma_occupants_insert(m0, h, e, self.field.cols, t);
            }
            assert forall|g: Handle| #[trigger] self.entities@.contains_key(g) implies self.entity_ok(g) by {
                assert(old(self).entity_ok(g));
            }
        }
        true
    }

    /// Adds the state `name` to animator `k` (see `Animator::add_state`).
    /// Returns whether it was added.
    pub fn add_animation_state(&mut self, k: Handle, name: String, frames: Vec<Frame>) -> (r: bool)
        requires
            old(self).wf(),
        ensures
            final(self).wf(),
            r == (old(self).animators@.contains_key(k) && frames@.len() > 0),
            r ==> final(self).animators@.dom() == old(self).animators@.dom(),
            r ==> final(self).animators@[k].states@ == old(self).animators@[k].states@.push(
                crate::animator::AnimationState { name, frames },
            ),
            r ==> final(self).animators@ == old(self).animators@.insert(k, Animator {
                states: final(self).animators@[k].states,
                ..old(self).animators@[k]
            }),
            !r ==> final(self).animators@ == old(self).animators@,
            same_but_animation(*old(self), *final(self)),
            final(self).pending_callbacks == old(self).pending_callbacks,
    {
        let ghost an0 = self.animators@;
        match self.animators.replace(k, Animator::new()) {
            None => false,
            Some(mut a) => {
                let r = a.add_state(name, frames);
                self.animators.set(k, a);
                proof {
                    assert(self.animators@ =~= an0.insert(k, a));
                    assert forall|j: Handle| #[trigger] self.animators@.contains_key(j) implies self.animators@[j].wf() by {
                        if j != k {
                            assert(an0.contains_key(j));
                        }
                    }
                }
                r
            },
        }
    }

    /// Switches animator `k` to the state `name` (see `Animator::set_state`),
    /// queueing what that fires. Returns whether `k` is live and knows the
    /// state.
    pub fn set_animation_state(&mut self, k: Handle, name: &String) -> (r: bool)
        requires
            old(self).wf(),
        ensures
            final(self).wf(),
            r == (old(self).animators@.contains_key(k) && find_state(old(self).animators@[k].states@, name@)
                < old(self).animators@[k].states@.len()),
            r ==> final(self).animators@[k].current == Some(find_state(old(self).animators@[k].states@, name@) as usize),
            r ==> final(self).animators@ == old(self).animators@.insert(k, old(self).animators@[k].started(find_state(old(self).animators@[k].states@, name@)).0),
            r ==> final(self).pending_callbacks@ == old(self).pending_callbacks@ + old(self).animators@[k].started(find_state(old(self).animators@[k].states@, name@)).1,
            !r ==> final(self).animators == old(self).animators && final(self).pending_callbacks == old(self).pending_callbacks,
            final(self).animators@.dom() == old(self).animators@.dom(),
            same_but_animation(*old(self), *final(self)),
    {
        let known = match self.animators.get(k) {
            None => false,
            Some(a) => a.has_state(name),
        };
        if !known {
            return false;
        }
        let ghost an0 = self.animators@;
        let mut a = self.animators.replace(k, Animator::new()).unwrap();
        let mut cbs = a.set_state(name);
        self.animators.set(k, a);
        self.pending_callbacks.append(&mut cbs);
        proof {
            assert(self.animators@ =~= an0.insert(k, a));
            assert forall|j: Handle| #[trigger] self.animators@.contains_key(j) implies self.animators@[j].wf() by {
                if j != k {
                    assert(an0.contains_key(j));
                }
            }
        }
        true
    }

    /// Lets the animator `k` fire `callback` when its state plays out.
    /// Returns whether `k` is live.
    pub fn on_animation_complete(&mut self, k: Handle, callback: Callback) -> (r: bool)
        requires
            old(self).wf(),
        ensures
            final(self).wf(),
            r == old(self).animators@.contains_key(k),
            r ==> final(self).animators@ == old(self).animators@.insert(k, Animator { on_complete: Some(callback), ..old(self).animators@[k] }),
            !r ==> final(self).animators@ == old(self).animators@,
            same_but_animation(*old(self), *final(self)),
            final(self).pending_callbacks == old(self).pending_callbacks,
    {
        let ghost an0 = self.animators@;
        match self.animators.replace(k, Animator::new()) {
            None => false,
            Some(mut a) => {
                a.on_complete(callback);
                self.animators.set(k, a);
                proof {
                    assert(self.animators@ =~= an0.insert(k, a));
                    assert forall|j: Handle| #[trigger] self.animators@.contains_key(j) implies self.animators@[j].wf() by {
                        if j != k {
                            assert(an0.contains_key(j));
                        }
                    }
                }
                true
            },
        }
    }
}


/// Where the player of index `index` starts: its slot of the layout, or the
/// corner tile when the layout has none.
pub open spec fn start_of(positions: Seq<TilePosition>, index: usize) -> TilePosition {
    if index < positions.len() {
        positions[index as int]
    } else {
        TilePosition { x: 0, y: 0 }
    }
}

/// Entity `e` once placed for the start of the battle: a player that is not
/// on the field yet moves to its start position.
pub open spec fn placed(e: Entity, positions: Seq<TilePosition>) -> Entity {
    if e.player.is_some() && !e.spawned {
        let p = start_of(positions, e.player.unwrap().index);
        Entity { x: p.x, y: p.y, ..e }
    } else {
        e
    }
}

impl BattleSimulation {
    /// Creates the character of player `index`, waiting to spawn.
    pub fn create_player(&mut self, index: usize, local: bool, health: i32) -> (r: Handle)
        requires
            old(self).wf(),
        ensures
            final(self).wf(),
            !old(self).entities@.contains_key(r),
            final(self).entities@.dom() == old(self).entities@.dom().insert(r),
            fresh_entity(Entity { pending_spawn: false, ..final(self).entities@[r] }, r, EntityKind::Player),
            final(self).entities@[r].pending_spawn,
            final(self).entities@[r].player == Some(PlayerInfo { index, local }),
            final(self).entities@[r].auto_reserves_tiles,
            final(self).entities@[r].living.is_some(),
            final(self).entities@[r].living.unwrap().health == health,
            final(self).animators@.dom() == old(self).animators@.dom().insert(final(self).entities@[r].animator),
            !old(self).animators@.contains_key(final(self).entities@[r].animator),
            forall|k: Handle| #[trigger] old(self).animators@.contains_key(k)
                ==> final(self).animators@[k] == old(self).animators@[k],
            !final(self).animators@[final(self).entities@[r].animator].enabled,
            final(self).animators@[final(self).entities@[r].animator].current.is_none(),
            final(self).animators@[final(self).entities@[r].animator].states@.len() == 0,
            forall|h: Handle| h != r && #[trigger] old(self).entities@.contains_key(h)
                ==> final(self).entities@[h] == old(self).entities@[h],
            final(self).field == old(self).field,
            final(self).card_actions == old(self).card_actions,
            final(self).components == old(self).components,
            final(self).pending_callbacks == old(self).pending_callbacks,
            final(self).time == old(self).time,
    {
        let h = self.create_entity(EntityKind::Player);
        let e = self.entity(h).unwrap();
        let mut e2 = Entity::new(h, EntityKind::Player, e.animator);
        e2.auto_reserves_tiles = true;
        e2.living = Some(Living::new(health));
        e2.player = Some(PlayerInfo { index, local });
        e2.pending_spawn = true;
        self.put_entity(h, e2);
        h
    }

    /// Places every player that is not on the field yet at its start
    /// position, remembers the local player, and puts each animator without a
    /// state into the idle state, queueing what that fires.
    pub fn initialize_uninitialized(&mut self)
        requires
            old(self).wf(),
        ensures
            final(self).wf(),
            final(self).entities@.dom() == old(self).entities@.dom(),
            forall|h: Handle| #[trigger] old(self).entities@.contains_key(h)
                ==> final(self).entities@[h] == placed(old(self).entities@[h], old(self).player_spawn_positions@),
            final(self).animators@.dom() == old(self).animators@.dom(),
            final(self).local_player_id == old(self).local_player_id || (final(self).entities@.contains_key(final(self).local_player_id)
                && final(self).entities@[final(self).local_player_id].player.is_some()
                && final(self).entities@[final(self).local_player_id].player.unwrap().local),
            final(self).pending_callbacks@.len() >= old(self).pending_callbacks@.len(),
            final(self).pending_callbacks@.take(old(self).pending_callbacks@.len() as int) == old(self).pending_callbacks@,
            final(self).card_actions == old(self).card_actions,
            final(self).components == old(self).components,
            final(self).time == old(self).time,
    {
        let hs = self.entities.handles();
        let ghost m0 = self.entities@;
        let ghost p0 = self.pending_callbacks@;
        let idle = "PLAYER_IDLE".to_string();
        let mut i: usize = 0;
        while i < hs.len()
            invariant
                0 <= i <= hs@.len(),
                visit_order(hs@, m0),
                self.wf(),
                m0 == old(self).entities@,
                p0 == old(self).pending_callbacks@,
                self.player_spawn_positions == old(self).player_spawn_positions,
                self.entities@.dom() == m0.dom(),
                forall|h: Handle| #[trigger] m0.contains_key(h) ==> self.entities@[h] == (if hs@.take(i as int).contains(h) {
                    placed(m0[h], old(self).player_spawn_positions@)
                } else {
                    m0[h]
                }),
                self.animators@.dom() == old(self).animators@.dom(),
                self.local_player_id == old(self).local_player_id || (self.entities@.contains_key(self.local_player_id)
                    && self.entities@[self.local_player_id].player.is_some()
                    && self.entities@[self.local_player_id].player.unwrap().local),
                self.pending_callbacks@.len() >= p0.len(),
                self.pending_callbacks@.take(p0.len() as int) == p0,
                self.card_actions == old(self).card_actions,
                self.components == old(self).components,
                self.time == old(self).time,
            decreases hs@.len() - i,
        {
            let h = hs[i];
            proof {
                lemma_take_step(hs@, i as int);
                assert(hs@.contains(h));
                assert(self.entities@[h] == m0[h]);
            }
            let e = self.entity(h).unwrap();
            let animator = e.animator;
            match e.player {
                Some(p) => {
                    if !e.spawned {
                        let pos = if p.index < self.player_spawn_positions.len() {
                            self.player_spawn_positions[p.index]
                        } else {
                            TilePosition { x: 0, y: 0 }
                        };
                        let ghost m1 = self.entities@;
                        let mut e2 = self.entities.replace(h, Entity::new(h, EntityKind::Artifact, animator)).unwrap();
                        e2.x = pos.x;
                        e2.y = pos.y;
                        self.entities.set(h, e2);
                        proof {
                            assert(self.entities@ =~= m1.insert(h, e2));
                            assert(e2 == placed(m0[h], old(self).player_spawn_positions@));
                            assert forall|t: int| 0 <= t < self.field.tiles@.len() implies (
                            #[trigger] self.field.tiles@[t]).entity_count == occupants(
                                self.entities@,
                                self.field.cols,
                                t,
                            ).len() by {
                                lemma_occupants_insert(m1, h, e2, self.field.cols, t);
                            }
                            assert forall|g: Handle| #[trigger] self.entities@.contains_key(g) implies self.entity_ok(g) by {
                                if g != h {
                                    assert(m1.contains_key(g));
                                }
                            }
                        }
                        if p.local {
                            self.local_player_id = h;
                        }
                    }
                },
                None => {},
            }
            let blank = match self.animators.get(animator) {
                Some(a) => a.current.is_none(),
                None => false,
            };
            if blank {
                let ghost pb = self.pending_callbacks@;
                self.set_animation_state(animator, &idle);
                proof {
                    assert(self.pending_callbacks@.take(pb.len() as int) =~= pb);
                    assert(self.pending_callbacks@.take(p0.len() as int) =~= pb.take(p0.len() as int));
                }
            }
            i += 1;
        }
        proof {
            assert(hs@.take(hs@.len() as int) =~= hs@);
        }
    }
}


/// Whether a walker `h` described by `e` may step onto the tile `t` at
/// `(x, y)` of a `cols` by `rows` field: not the border, not a hole unless it
/// ignores holes, not reserved by another entity unless it shares tiles, and
/// only its own team's or a neutral tile.
pub open spec fn may_enter(e: Entity, h: Handle, cols: usize, rows: usize, x: i32, y: i32, t: crate::field::Tile) -> bool {
    &&& in_bounds(cols, rows, x, y)
    &&& !is_edge(cols, rows, x, y)
    &&& (e.ignore_hole_tiles || !t.hole)
    &&& (e.share_tile || !(exists|g: Handle| #[trigger] t.reservations@.contains(g) && g != h))
    &&& (t.team == e.team || t.team == Team::Other)
}

impl BattleSimulation {
    /// Whether entity `h` may move onto `(x, y)`. Spells and artifacts may
    /// always move; obstacles never do; characters and players follow the
    /// character rule `may_enter`. False for an entity that is not live.
    pub fn can_move_to(&self, h: Handle, x: i32, y: i32) -> (r: bool)
        requires
            self.wf(),
        ensures
            r == (self.entities@.contains_key(h) && match self.entities@[h].kind {
                EntityKind::Spell | EntityKind::Artifact => true,
                EntityKind::Obstacle => false,
                _ => in_bounds(self.field.cols, self.field.rows, x, y) && may_enter(
                    self.entities@[h],
                    h,
                    self.field.cols,
                    self.field.rows,
                    x,
                    y,
                    self.field.tiles@[tile_index(self.field.cols, x, y)],
                ),
            }),
    {
        let e = match self.entity(h) {
            None => return false,
            Some(e) => e,
        };
        match e.kind {
            EntityKind::Spell | EntityKind::Artifact => return true,
            EntityKind::Obstacle => return false,
            _ => {},
        }
        let i = match self.field.tile_at(x, y) {
            None => return false,
            Some(i) => i,
        };
        if self.field.is_edge(x, y) {
            return false;
        }
        let tile = &self.field.tiles[i];
        proof {
            assert(*tile == self.field.tiles@[tile_index(self.field.cols, x, y)]);
            assert(*e == self.entities@[h]);
        }
        if !e.ignore_hole_tiles && tile.hole {
            return false;
        }
        if !e.share_tile {
            let mut k: usize = 0;
            while k < tile.reservations.len()
                invariant
                    0 <= k <= tile.reservations@.len(),
                    forall|j: int| 0 <= j < k ==> tile.reservations@[j] == h,
                    self.wf(),
                    self.entities@.contains_key(h),
                    *e == self.entities@[h],
                    in_bounds(self.field.cols, self.field.rows, x, y),
                    !is_edge(self.field.cols, self.field.rows, x, y),
                    *tile == self.field.tiles@[tile_index(self.field.cols, x, y)],
                    !e.share_tile,
                    e.kind != EntityKind::Spell && e.kind != EntityKind::Artifact && e.kind != EntityKind::Obstacle,
                decreases tile.reservations@.len() - k,
            {
                if tile.reservations[k] != h {
                    proof {
                        assert(tile.reservations@.contains(tile.reservations@[k as int]));
                    }
                    return false;
                }
                k += 1;
            }
            proof {
                assert forall|g: Handle| #[trigger] tile.reservations@.contains(g) implies g == h by {
                    let j = choose|j: int| 0 <= j < tile.reservations@.len() && tile.reservations@[j] == g;
                }
            }
        }
        tile.team == e.team || tile.team == Team::Other
    }
}

} // verus!
