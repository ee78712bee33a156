//! Simulation core for an animated desktop water scene: a rising and waving
//! water surface, a buoyant swimming character, and ambient bubble and fish
//! entities with randomized lifecycles. All state is held in plain integer
//! fixed-point units (microseconds for time, milli-pixels for world
//! coordinates, millionths for dimensionless levels and angles), so every
//! update rule is an exact function of its inputs.
//!
//! The host that renders the scene drives one tick per frame: it advances
//! the water surface, hands the resulting water line to the character, and
//! advances the two ambient spawners, then reads positions, rotations and
//! visibility back out of the structures here.

pub mod assets;
pub mod bubbles;
pub mod faith;
pub mod fish;
pub mod fxp;
mod rng;
pub mod util;
pub mod water;

pub use assets::EmbeddedAssetIo;
pub use bubbles::BubbleField;
pub use faith::Faith;
pub use fish::FishField;
pub use util::Also;
pub use water::Water;
