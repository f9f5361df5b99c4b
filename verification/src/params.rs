use vstd::prelude::*;

verus! {

// Machine limits of the integer model.  Every well-formed creature keeps its
// quantities inside these bounds, which is what makes all the arithmetic of
// the tick stages free of overflow.

/// Largest magnitude of a plane coordinate.
pub const COORD_LIMIT: i64 = 1_000_000_000;

/// Largest magnitude of a velocity component.
pub const VEL_LIMIT: i64 = 1_000_000_000;

/// Largest magnitude of an acceleration component; repulsion impulses
/// saturate here instead of overflowing.
pub const ACCEL_LIMIT: i64 = 10_000_000_000_000;

/// Largest steering-force factor of a behavioural state.
pub const FACTOR_LIMIT: i64 = 1_000_000;

/// Largest velocity cap (`upper_speed`) a creature can carry.
pub const SPEED_LIMIT: i64 = 1_000_000_000;

/// Largest energy, maximum energy, attack power or aggressiveness value.
pub const ENERGY_LIMIT: i64 = 1_000_000_000_000;

/// Largest hitbox radius.
pub const RADIUS_LIMIT: i64 = 1_000_000;

/// Largest hitbox repulsion strength.
pub const REPULSION_LIMIT: i64 = 1_000_000;

/// Largest vision radius of any of the three senses.
pub const VISION_LIMIT: i64 = 1_000_000_000;

/// Ratio-valued traits are thousandths: a rate `r` stands for `r / 1000`.
pub const RATE_DENOM: i64 = 1000;

/// Largest duration (milliseconds) of a child phase.
pub const TIME_LIMIT: i64 = 1_000_000_000;

/// Largest elapsed time (milliseconds) of a single tick.
pub const DT_LIMIT: i64 = 1_000_000;

// Rules of the energy economy and of spawning.

/// Flat energy cost per second, added to the speed-proportional cost.
pub const PASSIVE_ENERGY_LOSS: i64 = 50;

/// Energy yield of one spawned food item.
pub const FOOD_ENERGY: i64 = 80;

/// Half-extent of the map in x: spawn positions lie in `[-2500, 2500)`.
pub const MAP_WIDTH: i64 = 5000;

/// Half-extent of the map in y: spawn positions lie in `[-1500, 1500)`.
pub const MAP_HEIGHT: i64 = 3000;

/// Number of creatures placed at simulation start.
pub const INITIAL_CREATURE_COUNT: u32 = 60;

/// Fraction (in thousandths) of `max_energy` granted at initial spawning.
pub const SPAWN_ENERGY_RATE: i64 = 700;

// Sampling ranges (half-open) for randomly drawn traits.

pub const MIN_CREATURE_ENERGY: i64 = 6_400;

pub const MAX_CREATURE_ENERGY: i64 = 12_800;

pub const MIN_ACCEL: i64 = 1;

pub const MAX_ACCEL: i64 = 500;

pub const MIN_UPPER_SPEED: i64 = 1;

pub const MAX_UPPER_SPEED: i64 = 1_000;

pub const MIN_CREATURE_AGGRESSIVENESS: i64 = 0;

pub const MAX_CREATURE_AGGRESSIVENESS: i64 = 100;

pub const MIN_ATTACK_POWER: i64 = 0;

pub const MAX_ATTACK_POWER: i64 = 100;

pub const MIN_HITBOX_RADIUS: i64 = 5;

pub const MAX_HITBOX_RADIUS: i64 = 100;

pub const MIN_HITBOX_REPULSION: i64 = 10;

pub const MAX_HITBOX_REPULSION: i64 = 1_000;

pub const MIN_CREATURE_VISION_RADIUS: i64 = 10;

pub const MAX_CREATURE_VISION_RADIUS: i64 = 500;

pub const MIN_FOOD_VISION_RADIUS: i64 = 10;

pub const MAX_FOOD_VISION_RADIUS: i64 = 3_000;

pub const MIN_LOVE_VISION_RADIUS: i64 = 10;

pub const MAX_LOVE_VISION_RADIUS: i64 = 10_000;

/// In thousandths: `0.1`.
pub const MIN_WANT_TO_LOVE_RATE: i64 = 100;

/// In thousandths: `0.9`.
pub const MAX_WANT_TO_LOVE_RATE: i64 = 900;

pub const MIN_ENERGY_RATE_GIVEN_TO_BABY: i64 = 100;

pub const MAX_ENERGY_RATE_GIVEN_TO_BABY: i64 = 900;

/// In milliseconds: `5` seconds.
pub const MIN_IS_A_CHILD_TIME: i64 = 5_000;

/// In milliseconds: `30` seconds.
pub const MAX_IS_A_CHILD_TIME: i64 = 30_000;

} // verus!
