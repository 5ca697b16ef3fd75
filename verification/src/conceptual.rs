use vstd::prelude::*;

verus! {

/// A world that a server can host: it takes updates from the outside,
/// advances by ticks, can be reset, and renders itself as text.
pub trait World {
    /// Update with some information from the outside world.
    fn update(&self, msg: String);

    /// Advance the world by one step.
    fn tick(&mut self);

    /// Bring the world back to a starting state.
    fn reset(&mut self);

    /// Render the current state of the world.
    fn to_string(&self) -> String;
}

/// A world that keeps state local to each player.
pub trait WorldState {
    fn local_state();
}

/// A message that player `id` sent to the world.
#[derive(Clone)]
pub struct UpdateReq {
    pub id: i64,
    pub msg: String,
}

/// What a player asks of the world.
pub enum PlayerReq {
    Nothing,
    Fetch,
    Update(UpdateReq),
}

} // verus!
