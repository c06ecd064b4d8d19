use vstd::prelude::*;
use crate::arena::Handle;

verus! {

/// The battle state that plays the form-change sequence.
#[derive(Debug)]
pub struct FormActivateState {
    pub time: u64,
    pub target_complete_time: Option<u64>,
    pub artifact_entities: Vec<Handle>,
    pub completed: bool,
}

impl FormActivateState {
    pub fn new() -> (r: FormActivateState)
        ensures
            r.time == 0,
            r.target_complete_time.is_none(),
            r.artifact_entities@.len() == 0,
            !r.completed,
    {
        FormActivateState {
            time: 0,
            target_complete_time: None,
            artifact_entities: Vec::new(),
            completed: false,
        }
    }
}

} // verus!
