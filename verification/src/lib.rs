//! Verified core of a two-dimensional artificial-life simulation.
//!
//! Autonomous creatures move on a plane, eat spawned food, fight or court
//! nearby creatures, and reproduce with trait-averaged offspring.  All
//! quantities are integers: positions and velocities are plane coordinates,
//! energies are whole units, and the ratio-valued traits are expressed in
//! thousandths.  Every tick stage (behaviour selection, collision
//! resolution, the energy economy, and reproduction/combat) is an ordinary
//! function over the [`world::World`] state, with a contract that pins its
//! effect down exactly.
//!
//! Rendering, input, and the frame clock are left to the embedding
//! application; the library only reads positions and velocities and writes
//! accelerations, states, energies and spawn/despawn effects.

pub mod behavior;
pub mod collision;
pub mod creature;
pub mod energy;
pub mod interaction;
pub mod math;
pub mod params;
pub mod search;
pub mod spawn;
pub mod tick;
pub mod world;
