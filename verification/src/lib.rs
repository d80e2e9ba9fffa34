//! Gate-and-lock puzzle logic: sensors that must be held to unlock, and the
//! gates that open once enough of them have.
//!
//! Times are whole microseconds. A [`GateLock`] unlocks when the player has
//! stood on it for more than [`lock::UNLOCK_THRESHOLD`]; a [`Gate`] starts to
//! open when as many locks of its side have unlocked as it asks for, and is
//! open [`gate::OPEN_DURATION`] later. A [`Scene`] holds the locks and gates
//! of one map, takes in collisions and time, and keeps every gate in step
//! with the locks.

pub mod collision;
pub mod events;
pub mod gate;
pub mod lock;
pub mod scene;
pub mod side;
pub mod tally;
pub mod timeline;

pub use gate::{Gate, GateState};
pub use lock::{GateLock, GateLockState, GateLockUnlockEvent};
pub use scene::Scene;
pub use side::GateSide;
