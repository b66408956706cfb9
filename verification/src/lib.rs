//! Core of a small multiplayer arena game: a toroidal world of rectangular
//! entities, a push-based collision resolver, a per-tick integrator, and the
//! session and directory bookkeeping that the server builds on.

pub mod geom;
pub mod entity;
pub mod slab_store;
pub mod game;
pub mod motion;
pub mod session;
pub mod directory;

use vstd::prelude::*;

verus! {

/// Interface of the game-discovery directory that a running game registers
/// with. The directory itself is an external collaborator; the server only
/// consumes this interface.
pub trait GameRegistration {
    /// Registers a game associated with the client.
    /// As there can only be one registered game associated with a client,
    /// unregisters any already-registered game associated with the client.
    fn register(&mut self, port: u16, name: String) -> Option<String>;

    /// Unregisters the game associated with the client.
    /// Returns the name of the game unregistered, if any was registered.
    fn unregister(&mut self, port: u16) -> Option<String>;
}

} // verus!
