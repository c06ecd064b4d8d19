use vstd::prelude::*;
use crate::arena::Handle;
use crate::animator::FrameCallback;
use crate::callback::Callback;

verus! {

/// How a card action holds its owner.
#[derive(PartialEq, Eq, Structural, Clone, Copy, Debug)]
pub enum ActionLockout {
    /// Bound to the owner's animation: holds the owner until it completes.
    Animation,
    /// Runs for the given number of frames beside whatever the owner does.
    Async(u64),
    /// Runs its steps in order, holding the owner until the last completes.
    Sequence,
}

/// One step of a card action.
#[derive(PartialEq, Eq, Structural, Clone, Copy, Debug, Default)]
pub struct CardActionStep {
    pub completed: bool,
    pub callback: Option<Callback>,
}

/// A sprite of a card action bound to a named point of its owner's animation.
#[derive(Debug)]
pub struct CardActionAttachment {
    pub point_name: String,
    pub sprite_index: Handle,
    pub animator_index: Handle,
    pub parent_animator_index: Handle,
}

impl Clone for CardActionAttachment {
    fn clone(&self) -> (r: CardActionAttachment)
        ensures
            r == *self,
    {
        CardActionAttachment {
            point_name: self.point_name.clone(),
            sprite_index: self.sprite_index,
            animator_index: self.animator_index,
            parent_animator_index: self.parent_animator_index,
        }
    }
}

impl CardActionAttachment {
    pub fn new(
        point_name: String,
        sprite_index: Handle,
        animator_index: Handle,
        parent_animator_index: Handle,
    ) -> (r: CardActionAttachment)
        ensures
            r.point_name == point_name,
            r.sprite_index == sprite_index,
            r.animator_index == animator_index,
            r.parent_animator_index == parent_animator_index,
    {
        CardActionAttachment { point_name, sprite_index, animator_index, parent_animator_index }
    }
}

/// An action an entity performs, such as using a card.
#[derive(Debug)]
pub struct CardAction {
    pub active_frames: u64,
    pub deleted: bool,
    pub executed: bool,
    pub used: bool,
    pub interrupted: bool,
    pub entity: Handle,
    pub state: String,
    /// The owner's animation state when the action started, restored at its end.
    pub prev_state: Option<String>,
    pub frame_callbacks: Vec<FrameCallback>,
    pub sprite_index: Handle,
    pub steps: Vec<CardActionStep>,
    pub step_index: usize,
    pub attachments: Vec<CardActionAttachment>,
    pub lockout_type: ActionLockout,
    pub time_freeze_blackout_tiles: bool,
    pub old_x: i32,
    pub old_y: i32,
    pub update_callback: Option<Callback>,
    pub execute_callback: Option<Callback>,
    pub end_callback: Option<Callback>,
    pub animation_end_callback: Option<Callback>,
}

/// `b` holds what `a` holds.
pub open spec fn same_action(a: CardAction, b: CardAction) -> bool {
    &&& a.active_frames == b.active_frames
    &&& a.deleted == b.deleted
    &&& a.executed == b.executed
    &&& a.used == b.used
    &&& a.interrupted == b.interrupted
    &&& a.entity == b.entity
    &&& a.state == b.state
    &&& a.prev_state == b.prev_state
    &&& a.frame_callbacks@ == b.frame_callbacks@
    &&& a.sprite_index == b.sprite_index
    &&& a.steps@ == b.steps@
    &&& a.step_index == b.step_index
    &&& a.attachments@ == b.attachments@
    &&& a.lockout_type == b.lockout_type
    &&& a.time_freeze_blackout_tiles == b.time_freeze_blackout_tiles
    &&& a.old_x == b.old_x
    &&& a.old_y == b.old_y
    &&& a.update_callback == b.update_callback
    &&& a.execute_callback == b.execute_callback
    &&& a.end_callback == b.end_callback
    &&& a.animation_end_callback == b.animation_end_callback
}

impl Clone for CardAction {
    fn clone(&self) -> (r: CardAction)
        ensures
            same_action(*self, r),
    {
        let prev_state = match &self.prev_state {
            Some(s) => Some(s.clone()),
            None => None,
        };
        let frame_callbacks = self.frame_callbacks.clone();
        let steps = self.steps.clone();
        let attachments = self.attachments.clone();
        proof {
            assert(frame_callbacks@ =~= self.frame_callbacks@);
            assert(steps@ =~= self.steps@);
            assert(attachments@ =~= self.attachments@);
        }
        CardAction {
            active_frames: self.active_frames,
            deleted: self.deleted,
            executed: self.executed,
            used: self.used,
            interrupted: self.interrupted,
            entity: self.entity,
            state: self.state.clone(),
            prev_state,
            frame_callbacks,
            sprite_index: self.sprite_index,
            steps,
            step_index: self.step_index,
            attachments,
            lockout_type: self.lockout_type,
            time_freeze_blackout_tiles: self.time_freeze_blackout_tiles,
            old_x: self.old_x,
            old_y: self.old_y,
            update_callback: self.update_callback,
            execute_callback: self.execute_callback,
            end_callback: self.end_callback,
            animation_end_callback: self.animation_end_callback,
        }
    }
}

impl CardAction {
    pub fn new(entity: Handle, state: String, sprite_index: Handle) -> (r: CardAction)
        ensures
            r.entity == entity,
            r.state == state,
            r.sprite_index == sprite_index,
            r.active_frames == 0,
            !r.deleted && !r.executed && !r.used && !r.interrupted,
            r.prev_state.is_none(),
            r.frame_callbacks@.len() == 0,
            r.steps@.len() == 0,
            r.step_index == 0,
            r.attachments@.len() == 0,
            r.lockout_type == ActionLockout::Animation,
            !r.time_freeze_blackout_tiles,
            r.old_x == 0 && r.old_y == 0,
            r.update_callback.is_none() && r.execute_callback.is_none(),
            r.end_callback.is_none() && r.animation_end_callback.is_none(),
    {
        CardAction {
            active_frames: 0,
            deleted: false,
            executed: false,
            used: false,
            interrupted: false,
            entity,
            state,
            prev_state: None,
            frame_callbacks: Vec::new(),
            sprite_index,
            steps: Vec::new(),
            step_index: 0,
            attachments: Vec::new(),
            lockout_type: ActionLockout::Animation,
            time_freeze_blackout_tiles: false,
            old_x: 0,
            old_y: 0,
            update_callback: None,
            execute_callback: None,
            end_callback: None,
            animation_end_callback: None,
        }
    }

    pub open spec fn spec_is_async(&self) -> bool {
        self.lockout_type is Async
    }

    pub fn is_async(&self) -> (r: bool)
        ensures
            r == self.spec_is_async(),
    {
        match self.lockout_type {
            ActionLockout::Async(_) => true,
            _ => false,
        }
    }
}

} // verus!
