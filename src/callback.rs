use vstd::prelude::*;

verus! {

/// A script callback, identified by the handle under which the script host
/// registered it. The core never runs callbacks itself: it queues them.
#[derive(PartialEq, Eq, Structural, Clone, Copy, Debug, Hash)]
pub struct Callback {
    pub id: u64,
}

/// The callbacks an optional callback contributes to a queue.
pub open spec fn optional(c: Option<Callback>) -> Seq<Callback> {
    match c {
        Some(c) => seq![c],
        None => seq![],
    }
}

} // verus!
