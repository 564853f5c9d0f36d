//! Per-tick decision engine for a real-time strategy agent.
//!
//! Each simulation tick the engine interprets a partial snapshot of the
//! world, decides whether it is under threat, plans economic growth and
//! military production, allocates worker units to resource patches, and
//! issues movement, gather and ability orders for combat and caster units.

pub mod bot;
pub mod geom;
pub mod m_macro;
pub mod map;
pub mod micro;
pub mod model;
pub mod sort;
pub mod state;
pub mod strategy;
pub mod tagmap;
pub mod tally;
pub mod util;
