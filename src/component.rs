use vstd::prelude::*;
use crate::arena::Handle;
use crate::callback::Callback;

verus! {

/// How long a component lives and who drives it.
#[derive(PartialEq, Eq, Structural, Clone, Copy, Debug)]
pub enum ComponentLifetime {
    /// Updated by the orchestrator once every frame.
    BattleStep,
    /// Tracked by its owning entity, which updates and ejects it.
    Local,
}

/// A behaviour attached to an entity.
#[derive(PartialEq, Eq, Structural, Clone, Copy, Debug)]
pub struct Component {
    pub entity: Handle,
    pub update_callback: Callback,
    pub lifetime: ComponentLifetime,
}

} // verus!
