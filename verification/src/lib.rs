//! A verified Secret Santa game engine.
//!
//! A group of participants registers by name, the game is started once, and
//! the engine assigns every participant exactly one other participant to
//! gift, arranged as a single cycle over a randomly shuffled order. Each
//! participant may then reveal their own assignment exactly once; when the
//! last participant has revealed, the game is finished. The engine is pure,
//! synchronous, in-memory state: callers (an HTTP layer, a UI) wrap it in
//! whatever locking and transport they need.

pub mod game;
pub mod laws;
pub mod cycle;
pub mod perm;
pub mod server;
mod shuffle;

pub use game::GameStatus;
pub use game::Player;
pub use game::SecretSantaGame;
