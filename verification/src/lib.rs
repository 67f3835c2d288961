//! Verified game rules of the Void Portal idle game: level-gated
//! requirements, portal level bookkeeping, spawn ordering, targeting, and
//! which weapons and projectiles strike.
pub mod requirements;
pub mod targeting;
pub mod portal;
pub mod combat;
