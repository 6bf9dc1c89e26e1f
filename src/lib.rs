//! Game-side physics bookkeeping for a 2D side-scroller: semantic tags for
//! collision shapes, a generation-checked registry of simulated bodies, and
//! the player's scripted launch-and-fall motion.

pub mod object_data;
pub mod player;
pub mod registry;
