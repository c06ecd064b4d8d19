use battle_core::animator::{Animator, DerivedFrame, Frame};
use battle_core::arena::{Handle, Store};
use battle_core::attack_box::{AttackBox, Spell, TileHighlight};
use battle_core::bindable::{CardClass, Direction, Element, Input, Team};
use battle_core::block_package::{BlockColor, BlockPackage, PackageInfo};
use battle_core::callback::Callback;
use battle_core::card_action::{ActionLockout, CardAction, CardActionStep};
use battle_core::component::ComponentLifetime;
use battle_core::defense::{DefenseJudge, DefensePriority, DefenseRule};
use battle_core::entity::{CharacterRank, EntityKind};
use battle_core::form_activate::FormActivateState;
use battle_core::hit::{HitProperties, FLINCH, IMPACT, NO_COUNTER};
use battle_core::simulation::{BattleSimulation, PlayerInput, TilePosition};

fn cb(id: u64) -> Callback {
    Callback { id }
}

fn frames(durations: &[u32]) -> Vec<Frame> {
    durations
        .iter()
        .enumerate()
        .map(|(index, duration)| Frame { index, duration: *duration })
        .collect()
}

fn rule(priority: DefensePriority, table: u64) -> DefenseRule {
    DefenseRule { collision_only: false, priority, vm_index: 0, table }
}

fn drain(sim: &mut BattleSimulation) -> Vec<u64> {
    let mut ran = Vec::new();
    while let Some(c) = sim.next_pending_callback() {
        ran.push(c.id);
    }
    ran
}

fn tile_count(sim: &BattleSimulation, x: i32, y: i32) -> usize {
    let i = sim.field.tile_at(x, y).unwrap();
    sim.field.tiles[i].entity_count
}

#[test]
fn element_weaknesses() {
    assert!(Element::Aqua.is_weak_to(Element::Elec));
    assert!(Element::Fire.is_weak_to(Element::Aqua));
    assert!(Element::Wood.is_weak_to(Element::Fire));
    assert!(Element::Elec.is_weak_to(Element::Wood));
    assert!(Element::Sword.is_weak_to(Element::Break));
    assert!(Element::Wind.is_weak_to(Element::Sword));
    assert!(Element::Cursor.is_weak_to(Element::Wind));
    assert!(Element::Break.is_weak_to(Element::Cursor));
    assert!(!Element::Elec.is_weak_to(Element::Aqua));
    assert!(!Element::Neutral.is_weak_to(Element::Fire));
    assert!(!Element::Summon.is_weak_to(Element::Plus));
}

#[test]
fn element_codes_round_trip() {
    for n in 0..=10u8 {
        assert_eq!(Element::from_u8(n).unwrap().to_u8(), n);
    }
    assert_eq!(Element::from_u8(2), Some(Element::Aqua));
    assert_eq!(Element::from_u8(11), None);
    assert_eq!(Element::default(), Element::Neutral);
}

#[test]
fn card_class_codes() {
    assert_eq!(CardClass::from_u8(0), Some(CardClass::Standard));
    assert_eq!(CardClass::from_u8(3), Some(CardClass::Dark));
    assert_eq!(CardClass::from_u8(4), None);
    assert_eq!(CardClass::Giga.to_u8(), 2);
    assert_eq!(CardClass::default(), CardClass::Standard);
}

#[test]
fn required_inputs_list() {
    let inputs = Input::required_inputs();
    assert_eq!(inputs.len(), 10);
    assert_eq!(inputs[0], Input::Up);
    assert_eq!(inputs[4], Input::Cancel);
    assert_eq!(inputs[9], Input::ShoulderR);
}

#[test]
fn store_rejects_stale_handles() {
    let mut store: Store<u32> = Store::new();
    let a = store.insert(10);
    let b = store.insert(20);
    assert_ne!(a, b);
    assert_eq!(store.get(a), Some(&10));
    assert_eq!(store.remove(a), Some(10));
    assert_eq!(store.get(a), None);
    assert_eq!(store.remove(a), None);
    let c = store.insert(30);
    assert_ne!(c, a);
    assert_eq!(store.get(a), None);
    assert_eq!(store.get(c), Some(&30));
    assert!(store.set(c, 31));
    assert_eq!(store.replace(c, 32), Some(31));
    assert!(!store.set(a, 1));
    assert_eq!(store.len(), 2);
    let mut hs = store.handles();
    hs.sort_by_key(|h| h.slot);
    assert_eq!(hs.len(), 2);
    let copy = store.duplicate();
    assert_eq!(copy.get(b), Some(&20));
    assert_eq!(copy.get(c), Some(&32));
}

#[test]
fn defense_rule_order_and_replacement() {
    // tiers 3, 1, 2, then 1 again
    let mut rules = Vec::new();
    let mut replaced = Vec::new();
    for r in [
        rule(DefensePriority::Action, 1),
        rule(DefensePriority::Intangible, 2),
        rule(DefensePriority::Barrier, 3),
        rule(DefensePriority::Intangible, 4),
    ] {
        if let Some(old) = DefenseRule::add(&mut rules, r) {
            replaced.push(old);
        }
    }
    let order: Vec<(DefensePriority, u64)> = rules.iter().map(|r| (r.priority, r.table)).collect();
    assert_eq!(
        order,
        vec![
            (DefensePriority::Intangible, 4),
            (DefensePriority::Barrier, 3),
            (DefensePriority::Action, 1),
        ]
    );
    assert_eq!(replaced.len(), 1);
    assert_eq!(replaced[0].table, 2);
}

#[test]
fn last_tier_rules_always_append() {
    let mut rules = Vec::new();
    assert!(DefenseRule::add(&mut rules, rule(DefensePriority::Last, 1)).is_none());
    assert!(DefenseRule::add(&mut rules, rule(DefensePriority::Last, 2)).is_none());
    assert!(DefenseRule::add(&mut rules, rule(DefensePriority::Body, 3)).is_none());
    let tables: Vec<u64> = rules.iter().map(|r| r.table).collect();
    assert_eq!(tables, vec![3, 1, 2]);
}

#[test]
fn defense_rule_removal_matches_context_and_table() {
    let mut rules = Vec::new();
    DefenseRule::add(&mut rules, rule(DefensePriority::Barrier, 5));
    DefenseRule::add(&mut rules, rule(DefensePriority::Trap, 6));
    assert!(!DefenseRule::remove(&mut rules, 0, DefensePriority::Barrier, 99));
    assert!(!DefenseRule::remove(&mut rules, 1, DefensePriority::Barrier, 5));
    assert!(DefenseRule::remove(&mut rules, 0, DefensePriority::Barrier, 5));
    assert_eq!(rules.len(), 1);
    assert_eq!(rules[0].table, 6);
}

#[test]
fn judge_passes_pick_rules_in_order() {
    let rules = vec![
        DefenseRule { collision_only: true, priority: DefensePriority::Intangible, vm_index: 0, table: 1 },
        DefenseRule { collision_only: false, priority: DefensePriority::Barrier, vm_index: 0, table: 2 },
        DefenseRule { collision_only: true, priority: DefensePriority::Body, vm_index: 0, table: 3 },
    ];
    let collision: Vec<u64> = DefenseJudge::judge(&rules, true).iter().map(|r| r.table).collect();
    assert_eq!(collision, vec![1, 3]);
    let filters: Vec<u64> = DefenseJudge::judge(&rules, false).iter().map(|r| r.table).collect();
    assert_eq!(filters, vec![2]);
    let judge = DefenseJudge::new();
    assert!(!judge.impact_blocked && !judge.damage_blocked);
}

#[test]
fn status_filter_keeps_no_counter() {
    let original = HitProperties { damage: 40, flags: NO_COUNTER | FLINCH, element: Element::Fire, secondary_element: Element::Neutral };
    let filtered = HitProperties { damage: 10, flags: IMPACT, element: Element::Aqua, secondary_element: Element::Neutral };
    let r = DefenseJudge::filter_statuses(&original, &vec![filtered]);
    assert_eq!(r.damage, 10);
    assert_eq!(r.flags, IMPACT | NO_COUNTER);
    assert_eq!(r.element, Element::Aqua);
    let plain = HitProperties { flags: FLINCH, ..original };
    assert_eq!(DefenseJudge::filter_statuses(&plain, &vec![filtered]).flags, IMPACT);
}

#[test]
fn animator_completes_once_on_sixth_update() {
    let mut a = Animator::new();
    assert!(a.add_state("SHOT".to_string(), frames(&[2, 2, 2])));
    assert!(a.set_state(&"SHOT".to_string()).is_empty());
    a.on_complete(cb(7));
    let mut fired_at = Vec::new();
    for i in 1..=12 {
        let r = a.update();
        if !r.is_empty() {
            assert_eq!(r, vec![cb(7)]);
            fired_at.push(i);
        }
    }
    assert_eq!(fired_at, vec![6]);
    assert!(a.complete);
    a.set_state(&"SHOT".to_string());
    a.on_complete(cb(8));
    let mut fired = Vec::new();
    for _ in 0..6 {
        fired.extend(a.update());
    }
    assert_eq!(fired, vec![cb(8)]);
}

#[test]
fn animator_frame_callbacks_and_looping() {
    let mut a = Animator::new();
    a.add_state("IDLE".to_string(), frames(&[1, 1]));
    a.set_state(&"IDLE".to_string());
    a.set_looping(true);
    a.on_frame(1, cb(1));
    a.on_frame(0, cb(0));
    assert_eq!(a.update(), vec![cb(1)]);
    assert_eq!(a.update(), vec![cb(0)]);
    assert_eq!(a.update(), vec![cb(1)]);
    assert!(!a.complete);
}

#[test]
fn animator_interrupt_and_disable() {
    let mut a = Animator::new();
    a.add_state("A".to_string(), frames(&[3]));
    a.add_state("B".to_string(), frames(&[3]));
    a.set_state(&"A".to_string());
    a.on_interrupt(cb(9));
    a.on_frame(0, cb(5));
    assert_eq!(a.set_state(&"B".to_string()), vec![cb(5)]);
    assert!(a.on_interrupt.is_none());
    assert_eq!(a.current, Some(1));
    assert!(a.set_state(&"MISSING".to_string()).is_empty());
    assert_eq!(a.current, Some(1));
    a.disable();
    a.update();
    assert_eq!(a.elapsed, 0);
    a.enable();
    a.update();
    assert_eq!(a.elapsed, 1);
}

#[test]
fn animator_derived_state_reuses_frames() {
    let mut a = Animator::new();
    a.add_state("MOVE".to_string(), vec![Frame { index: 4, duration: 1 }, Frame { index: 7, duration: 1 }]);
    let derived = vec![DerivedFrame { frame_index: 1, duration: 5 }, DerivedFrame { frame_index: 0, duration: 2 }];
    assert!(a.derive_state(&"MOVE".to_string(), "MOVE_SLOW".to_string(), &derived));
    let s = &a.states[1];
    assert_eq!(s.name, "MOVE_SLOW");
    assert_eq!(s.frames, vec![Frame { index: 7, duration: 5 }, Frame { index: 4, duration: 2 }]);
    let bad = vec![DerivedFrame { frame_index: 2, duration: 1 }];
    assert!(!a.derive_state(&"MOVE".to_string(), "BAD".to_string(), &bad));
    assert!(!a.derive_state(&"NONE".to_string(), "BAD".to_string(), &derived));
    assert_eq!(a.states.len(), 2);
}

#[test]
fn new_battle_layouts_and_field() {
    let sim = BattleSimulation::new(3);
    assert_eq!(
        sim.player_spawn_positions,
        vec![TilePosition { x: 2, y: 2 }, TilePosition { x: 4, y: 3 }, TilePosition { x: 6, y: 1 }]
    );
    assert_eq!(sim.inputs.len(), 3);
    assert_eq!(sim.field.tiles.len(), 40);
    let left = sim.field.tile_at(1, 2).unwrap();
    let right = sim.field.tile_at(6, 2).unwrap();
    assert_eq!(sim.field.tiles[left].team, Team::Red);
    assert_eq!(sim.field.tiles[left].direction, Direction::Right);
    assert_eq!(sim.field.tiles[right].team, Team::Blue);
    assert_eq!(sim.field.tile_at(8, 0), None);
    assert_eq!(sim.field.tile_at(-1, 0), None);
    let big = BattleSimulation::new(9);
    assert_eq!(big.player_spawn_positions.len(), 4);
}

#[test]
fn spawn_pass_places_entities_and_counts_tiles() {
    let mut sim = BattleSimulation::new(1);
    let a = sim.create_character(CharacterRank::V1, 100);
    let b = sim.create_spell();
    let far = sim.create_artifact();
    sim.set_entity_callbacks(a, Some(cb(1)), Some(cb(2)), None);
    assert!(sim.queue_spawn(a, 1, 1));
    assert!(sim.queue_spawn(b, 1, 1));
    assert!(sim.queue_spawn(far, 20, 1));
    sim.pre_update();
    assert_eq!(drain(&mut sim), vec![1]);
    assert_eq!(tile_count(&sim, 1, 1), 2);
    let e = sim.entity(a).unwrap();
    assert!(e.spawned && e.on_field && !e.pending_spawn);
    assert_eq!(e.team, Team::Red);
    assert_eq!(e.facing, Direction::Right);
    assert!(sim.animator(e.animator).unwrap().enabled);
    assert!(sim.entity(far).unwrap().pending_spawn);
    assert!(!sim.queue_spawn(a, 2, 2));

    assert!(sim.move_entity(a, 2, 1));
    assert_eq!(tile_count(&sim, 1, 1), 1);
    assert_eq!(tile_count(&sim, 2, 1), 1);
    assert!(!sim.move_entity(a, 9, 9));

    assert!(sim.erase_entity(b));
    sim.finish_frame();
    assert_eq!(tile_count(&sim, 1, 1), 0);
    assert!(sim.entity(b).is_none());
    assert_eq!(sim.time, 1);
}

#[test]
fn battle_start_callbacks_follow_spawn_callbacks() {
    let mut sim = BattleSimulation::new(1);
    sim.battle_started = true;
    let a = sim.create_obstacle();
    sim.set_entity_callbacks(a, Some(cb(1)), Some(cb(2)), None);
    sim.queue_spawn(a, 3, 3);
    sim.pre_update();
    assert_eq!(drain(&mut sim), vec![1, 2]);
    assert_eq!(sim.entity(a).unwrap().kind, EntityKind::Obstacle);
}

#[test]
fn sync_card_actions_are_exclusive() {
    let mut sim = BattleSimulation::new(1);
    let e = sim.create_character(CharacterRank::V1, 50);
    let first = sim.use_card_action(e, CardAction::new(e, "A".to_string(), Handle::dangling())).unwrap();
    assert_eq!(sim.entity(e).unwrap().card_action, Some(first));
    assert!(sim.use_card_action(e, CardAction::new(e, "B".to_string(), Handle::dangling())).is_none());
    let mut background = CardAction::new(e, "C".to_string(), Handle::dangling());
    background.lockout_type = ActionLockout::Async(30);
    let other = sim.use_card_action(e, background).unwrap();
    assert!(sim.card_action(other).unwrap().is_async());
    assert_eq!(sim.entity(e).unwrap().card_action, Some(first));
    assert!(!sim.complete_sync(other));
    assert!(sim.complete_sync(first));
    assert_eq!(sim.entity(e).unwrap().card_action, None);
    assert!(!sim.complete_sync(first));
    assert!(sim.use_card_action(e, CardAction::new(e, "D".to_string(), Handle::dangling())).is_some());
    let missing = sim.create_spell();
    sim.erase_entity(missing);
    sim.finish_frame();
    assert!(sim.use_card_action(missing, CardAction::new(missing, "E".to_string(), Handle::dangling())).is_none());
}

#[test]
fn completing_an_action_reverts_animation_before_end_callback() {
    let mut sim = BattleSimulation::new(1);
    let e = sim.create_character(CharacterRank::V1, 50);
    let anim = sim.entity(e).unwrap().animator;
    sim.add_animation_state(anim, "IDLE".to_string(), frames(&[1]));
    sim.add_animation_state(anim, "SWING".to_string(), frames(&[4]));
    sim.set_animation_state(anim, &"IDLE".to_string());
    let mut action = CardAction::new(e, "SWING".to_string(), Handle::dangling());
    action.end_callback = Some(cb(10));
    let a = sim.use_card_action(e, action).unwrap();
    assert_eq!(sim.animator(anim).unwrap().current, Some(1));
    assert_eq!(sim.card_action(a).unwrap().prev_state, Some("IDLE".to_string()));
    sim.complete_sync(a);
    assert_eq!(sim.animator(anim).unwrap().current, Some(0));
    assert_eq!(drain(&mut sim), vec![10]);
    assert!(sim.card_action(a).unwrap().deleted);
    sim.finish_frame();
    assert!(sim.card_action(a).is_none());
}

#[test]
fn deleting_an_entity_orders_its_teardown() {
    let mut sim = BattleSimulation::new(1);
    let e = sim.create_character(CharacterRank::V1, 100);
    let anim = sim.entity(e).unwrap().animator;
    sim.add_animation_state(anim, "IDLE".to_string(), frames(&[1]));
    sim.add_animation_state(anim, "ATTACK".to_string(), frames(&[3]));
    sim.set_animation_state(anim, &"IDLE".to_string());
    sim.queue_spawn(e, 2, 2);
    sim.pre_update();
    drain(&mut sim);
    sim.set_entity_callbacks(e, None, None, Some(cb(30)));
    sim.add_delete_listener(e, cb(20));
    let mut action = CardAction::new(e, "ATTACK".to_string(), Handle::dangling());
    action.end_callback = Some(cb(10));
    let a = sim.use_card_action(e, action).unwrap();
    let c = sim.attach_component(e, cb(40), ComponentLifetime::BattleStep).unwrap();
    assert_eq!(sim.animator(anim).unwrap().current, Some(1));

    sim.delete_entity(e);
    let ent = sim.entity(e).unwrap();
    assert!(ent.deleted);
    assert_eq!(ent.card_action, None);
    assert_eq!(sim.animator(anim).unwrap().current, Some(0));
    // the entity, its action and its component are still there
    assert!(sim.card_action(a).is_some());
    assert!(sim.component(c).is_some());
    assert_eq!(drain(&mut sim), vec![10, 20, 30]);

    // a second delete does nothing
    sim.delete_entity(e);
    assert!(drain(&mut sim).is_empty());

    // the delete callback erases the entity; cleanup removes everything
    sim.erase_entity(e);
    sim.finish_frame();
    assert!(sim.entity(e).is_none());
    assert!(sim.card_action(a).is_none());
    assert!(sim.component(c).is_none());
    assert!(sim.animator(anim).is_none());
    assert_eq!(tile_count(&sim, 2, 2), 0);
}

#[test]
fn components_attach_update_and_eject() {
    let mut sim = BattleSimulation::new(1);
    let e = sim.create_character(CharacterRank::V1, 10);
    let step = sim.attach_component(e, cb(1), ComponentLifetime::BattleStep).unwrap();
    let local_a = sim.attach_component(e, cb(2), ComponentLifetime::Local).unwrap();
    let local_b = sim.attach_component(e, cb(3), ComponentLifetime::Local).unwrap();
    assert_eq!(sim.entity(e).unwrap().local_components, vec![local_a, local_b]);
    sim.post_update();
    assert_eq!(drain(&mut sim), vec![1]);
    assert!(sim.eject_component(local_a));
    assert_eq!(sim.entity(e).unwrap().local_components, vec![local_b]);
    assert!(!sim.eject_component(local_a));
    assert!(sim.eject_component(step));
    sim.post_update();
    assert!(drain(&mut sim).is_empty());
    let gone = sim.create_spell();
    sim.erase_entity(gone);
    sim.finish_frame();
    assert!(sim.attach_component(gone, cb(5), ComponentLifetime::Local).is_none());
}

#[test]
fn entity_defense_rules() {
    let mut sim = BattleSimulation::new(1);
    let e = sim.create_character(CharacterRank::V1, 10);
    let spell = sim.create_spell();
    assert!(sim.add_defense_rule(spell, rule(DefensePriority::Barrier, 1)).is_none());
    assert!(sim.add_defense_rule(e, rule(DefensePriority::Barrier, 1)).is_none());
    let old = sim.add_defense_rule(e, rule(DefensePriority::Barrier, 2)).unwrap();
    assert_eq!(old.table, 1);
    assert_eq!(sim.entity(e).unwrap().living.as_ref().unwrap().defense_rules.len(), 1);
    assert!(sim.remove_defense_rule(e, 0, DefensePriority::Barrier, 2));
    assert!(sim.entity(e).unwrap().living.as_ref().unwrap().defense_rules.is_empty());
}

fn run_frames(sim: &mut BattleSimulation, inputs: &[u32]) -> Vec<u64> {
    let mut ran = Vec::new();
    for held in inputs {
        sim.set_inputs(vec![PlayerInput { held: *held }]);
        sim.pre_update();
        ran.extend(drain(sim));
        sim.post_update();
        ran.extend(drain(sim));
        sim.finish_frame();
    }
    ran
}

#[test]
fn replay_from_snapshot_matches() {
    let mut sim = BattleSimulation::new(1);
    let e = sim.create_character(CharacterRank::V1, 70);
    let anim = sim.entity(e).unwrap().animator;
    sim.add_animation_state(anim, "IDLE".to_string(), frames(&[2, 3]));
    sim.set_animation_state(anim, &"IDLE".to_string());
    sim.on_animation_complete(anim, cb(5));
    sim.set_entity_callbacks(e, Some(cb(1)), None, None);
    sim.queue_spawn(e, 2, 3);
    sim.attach_component(e, cb(9), ComponentLifetime::BattleStep);
    let snapshot = sim.clone();

    let inputs = [0u32, 1, 3, 0, 2, 2, 0];
    let direct = run_frames(&mut sim, &inputs);

    let mut replay = BattleSimulation::new(1);
    replay.restore_from(snapshot.clone());
    let again = run_frames(&mut replay, &inputs);

    assert_eq!(direct, again);
    assert_eq!(sim.time, replay.time);
    let (a, b) = (sim.entity(e).unwrap(), replay.entity(e).unwrap());
    assert_eq!((a.x, a.y, a.spawned), (b.x, b.y, b.spawned));
    assert_eq!(a.living.as_ref().unwrap().health, b.living.as_ref().unwrap().health);
    assert_eq!(a.card_action, b.card_action);
    assert_eq!(sim.animator(anim).unwrap().frame, replay.animator(anim).unwrap().frame);
    // the snapshot itself was not touched
    assert!(snapshot.entity(e).unwrap().pending_spawn);
    assert_eq!(snapshot.time, 0);
}

#[test]
fn attack_box_from_spell() {
    let mut sim = BattleSimulation::new(1);
    let e = sim.create_spell();
    let entity = sim.entity(e).unwrap();
    let spell = Spell { hit_props: HitProperties { damage: 30, ..HitProperties::default() }, requested_highlight: TileHighlight::Automatic };
    let b = AttackBox::new_from(3, 1, entity, &spell);
    assert_eq!(b.attacker_id, e);
    assert_eq!((b.x, b.y), (3, 1));
    assert_eq!(b.props.damage, 30);
    assert!(b.highlight);
    let quiet = Spell { requested_highlight: TileHighlight::Flash, ..spell };
    assert!(!AttackBox::new_from(0, 0, entity, &quiet).highlight);
}

#[test]
fn block_package_shape_and_color() {
    let info = PackageInfo { id: "b".to_string(), base_path: String::new(), script_path: String::new() };
    let mut p = BlockPackage::new(info);
    assert_eq!(p.shape.len(), 25);
    assert!(p.shape.iter().all(|c| !c));
    p.set_shape(&vec![true, false, true]);
    assert_eq!(p.shape.len(), 25);
    assert!(p.shape[0] && !p.shape[1] && p.shape[2] && !p.shape[3]);
    p.set_shape(&vec![true; 30]);
    assert_eq!(p.shape, vec![true; 25]);
    p.set_color(3);
    assert_eq!(p.block_color, BlockColor::Blue);
    p.set_color(200);
    assert_eq!(p.block_color, BlockColor::White);
    assert_eq!(p.package_info().id, "b");
}

#[test]
fn fresh_states_and_steps() {
    let f = FormActivateState::new();
    assert_eq!(f.time, 0);
    assert!(!f.completed && f.target_complete_time.is_none() && f.artifact_entities.is_empty());
    let step = CardActionStep::default();
    assert!(!step.completed && step.callback.is_none());
}

#[test]
fn players_start_at_their_layout_slot() {
    let mut sim = BattleSimulation::new(2);
    let p0 = sim.create_player(0, true, 100);
    let p1 = sim.create_player(1, false, 100);
    let stray = sim.create_player(9, false, 100);
    let anim = sim.entity(p1).unwrap().animator;
    sim.add_animation_state(anim, "PLAYER_IDLE".to_string(), frames(&[1]));
    sim.initialize_uninitialized();
    let at = |sim: &BattleSimulation, h| {
        let e = sim.entity(h).unwrap();
        (e.x, e.y)
    };
    assert_eq!(at(&sim, p0), (2, 2));
    assert_eq!(at(&sim, p1), (5, 2));
    assert_eq!(at(&sim, stray), (0, 0));
    assert_eq!(sim.local_player_id, p0);
    assert_eq!(sim.animator(anim).unwrap().current, Some(0));
    sim.pre_update();
    drain(&mut sim);
    assert_eq!(tile_count(&sim, 2, 2), 1);
    assert_eq!(tile_count(&sim, 5, 2), 1);
    assert_eq!(tile_count(&sim, 0, 0), 1);
    assert_eq!(sim.entity(p1).unwrap().team, Team::Blue);
}

#[test]
fn completing_an_action_moves_the_reservation() {
    let mut sim = BattleSimulation::new(1);
    let e = sim.create_character(CharacterRank::V1, 20);
    sim.queue_spawn(e, 1, 1);
    sim.pre_update();
    drain(&mut sim);
    let a = sim.use_card_action(e, CardAction::new(e, "DASH".to_string(), Handle::dangling())).unwrap();
    assert_eq!((sim.card_action(a).unwrap().old_x, sim.card_action(a).unwrap().old_y), (1, 1));
    sim.move_entity(e, 2, 1);
    assert!(sim.complete_sync(a));
    let to = sim.field.tile_at(2, 1).unwrap();
    let from = sim.field.tile_at(1, 1).unwrap();
    assert_eq!(sim.field.tiles[to].reservations, vec![e]);
    assert!(sim.field.tiles[from].reservations.is_empty());
}

#[test]
fn filter_pass_runs_non_collision_rules_and_keeps_no_counter() {
    let rules = vec![
        DefenseRule { collision_only: true, priority: DefensePriority::Intangible, vm_index: 0, table: 1 },
        DefenseRule { collision_only: false, priority: DefensePriority::Barrier, vm_index: 0, table: 2 },
        DefenseRule { collision_only: false, priority: DefensePriority::Trap, vm_index: 0, table: 3 },
    ];
    let order: Vec<u64> = DefenseJudge::status_filters(&rules).iter().map(|r| r.table).collect();
    assert_eq!(order, vec![2, 3]);
    let original = HitProperties { damage: 40, flags: NO_COUNTER, element: Element::Fire, secondary_element: Element::Neutral };
    let first = HitProperties { damage: 20, flags: FLINCH, ..original };
    let second = HitProperties { damage: 5, flags: IMPACT, ..original };
    let r = DefenseJudge::filter_statuses(&original, &vec![first, second]);
    assert_eq!(r.damage, 5);
    assert_eq!(r.flags, IMPACT | NO_COUNTER);
    assert_eq!(DefenseJudge::filter_statuses(&original, &Vec::new()), original);
}

#[test]
fn new_battle_has_no_local_player_yet() {
    let sim = BattleSimulation::new(1);
    assert_eq!(sim.local_player_id, Handle::dangling());
    assert!(sim.entity(sim.local_player_id).is_none());
}

#[test]
fn movement_rule_checks_edges_teams_holes_and_reservations() {
    let mut sim = BattleSimulation::new(1);
    let e = sim.create_character(CharacterRank::V1, 10);
    let other = sim.create_character(CharacterRank::V1, 10);
    sim.queue_spawn(e, 2, 2);
    sim.queue_spawn(other, 3, 2);
    sim.pre_update();
    drain(&mut sim);
    assert!(sim.can_move_to(e, 3, 2));
    assert!(!sim.can_move_to(e, 0, 2));
    assert!(!sim.can_move_to(e, 2, 0));
    assert!(!sim.can_move_to(e, 9, 2));
    assert!(!sim.can_move_to(e, 5, 2));
    let i = sim.field.tile_at(1, 2).unwrap();
    sim.field.tiles[i].hole = true;
    assert!(!sim.can_move_to(e, 1, 2));
    let j = sim.field.tile_at(3, 1).unwrap();
    sim.field.tiles[j].reservations.push(other);
    assert!(!sim.can_move_to(e, 3, 1));
    sim.field.tiles[j].reservations = vec![e];
    assert!(sim.can_move_to(e, 3, 1));
    assert!(!sim.can_move_to(Handle::dangling(), 3, 1));
    assert_eq!(sim.entity(e).unwrap().kind, EntityKind::Character(CharacterRank::V1));
    let spell = sim.create_spell();
    let artifact = sim.create_artifact();
    let rock = sim.create_obstacle();
    assert!(sim.can_move_to(spell, 0, 0));
    assert!(sim.can_move_to(artifact, 5, 2));
    assert!(!sim.can_move_to(rock, 2, 2));
}
