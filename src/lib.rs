//! A deterministic, frame-stepped battle engine core: generational arenas,
//! animators, card actions, defense rules, components and the per-frame
//! orchestration that ties them together.

pub mod animator;
pub mod arena;
pub mod attack_box;
pub mod bindable;
pub mod block_package;
pub mod callback;
pub mod card_action;
pub mod component;
pub mod defense;
pub mod entity;
pub mod field;
pub mod form_activate;
pub mod hit;
pub mod simulation;
