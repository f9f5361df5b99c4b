use vstd::prelude::*;

verus! {

use crate::creature::CreatureState;
use crate::params::{
    FOOD_ENERGY, INITIAL_CREATURE_COUNT, MAP_HEIGHT, MAP_WIDTH, MAX_ACCEL,
    MAX_ATTACK_POWER, MAX_CREATURE_AGGRESSIVENESS, MAX_CREATURE_ENERGY, MAX_CREATURE_VISION_RADIUS,
    MAX_ENERGY_RATE_GIVEN_TO_BABY, MAX_FOOD_VISION_RADIUS, MAX_HITBOX_RADIUS,
    MAX_HITBOX_REPULSION, MAX_IS_A_CHILD_TIME, MAX_LOVE_VISION_RADIUS, MAX_UPPER_SPEED,
    MAX_WANT_TO_LOVE_RATE, MIN_ACCEL, MIN_ATTACK_POWER, MIN_CREATURE_AGGRESSIVENESS,
    MIN_CREATURE_ENERGY, MIN_CREATURE_VISION_RADIUS, MIN_ENERGY_RATE_GIVEN_TO_BABY,
    MIN_FOOD_VISION_RADIUS, MIN_HITBOX_RADIUS, MIN_HITBOX_REPULSION, MIN_IS_A_CHILD_TIME,
    MIN_LOVE_VISION_RADIUS, MIN_UPPER_SPEED, MIN_WANT_TO_LOVE_RATE, RATE_DENOM, SPAWN_ENERGY_RATE,
};
use crate::world::{spawn_creature, spawn_food, World};

/// Relies on rand::random_range: a uniform sample from the half-open
/// range `lo..hi`, which always lies in that range; the range is
/// non-empty, so the call does not panic.
#[verifier::external_body]
fn random_in_range(lo: i64, hi: i64) -> (r: i64)
    requires
        lo < hi,
    ensures
        lo <= r < hi,
{
    rand::random_range(lo..hi)
}

/// What holds of the creature at slot `id` right after a random spawn:
/// every trait lies in its sampling range, the energy is the spawn
/// fraction of the maximum, and the record starts at rest, neutral, at
/// generation zero, without allies, as a child.
pub open spec fn randomly_spawned(w: crate::world::WorldModel, id: int) -> bool {
    let c = w.creatures[id];
    &&& c.alive
    &&& c.movable
    &&& -(MAP_WIDTH as int) / 2 <= c.x < (MAP_WIDTH as int) / 2
    &&& -(MAP_HEIGHT as int) / 2 <= c.y < (MAP_HEIGHT as int) / 2
    &&& MIN_CREATURE_ENERGY <= c.max_energy < MAX_CREATURE_ENERGY
    &&& c.energy == (SPAWN_ENERGY_RATE * c.max_energy) / (RATE_DENOM as int)
    &&& MIN_ACCEL <= c.neutral_accel_factor < MAX_ACCEL
    &&& MIN_ACCEL <= c.eat_accel_factor < MAX_ACCEL
    &&& MIN_ACCEL <= c.attack_accel_factor < MAX_ACCEL
    &&& MIN_ACCEL <= c.flee_accel_factor < MAX_ACCEL
    &&& MIN_ACCEL <= c.love_accel_factor < MAX_ACCEL
    &&& MIN_UPPER_SPEED <= c.upper_speed < MAX_UPPER_SPEED
    &&& MIN_CREATURE_AGGRESSIVENESS <= c.aggressiveness < MAX_CREATURE_AGGRESSIVENESS
    &&& MIN_ATTACK_POWER <= c.attack_power < MAX_ATTACK_POWER
    &&& MIN_HITBOX_RADIUS <= c.hitbox_radius < MAX_HITBOX_RADIUS
    &&& MIN_HITBOX_REPULSION <= c.hitbox_repulsion < MAX_HITBOX_REPULSION
    &&& MIN_CREATURE_VISION_RADIUS <= c.creature_vision_radius < MAX_CREATURE_VISION_RADIUS
    &&& MIN_FOOD_VISION_RADIUS <= c.food_vision_radius < MAX_FOOD_VISION_RADIUS
    &&& MIN_LOVE_VISION_RADIUS <= c.love_vision_radius < MAX_LOVE_VISION_RADIUS
    &&& MIN_WANT_TO_LOVE_RATE <= c.want_to_love_rate < MAX_WANT_TO_LOVE_RATE
    &&& MIN_ENERGY_RATE_GIVEN_TO_BABY <= c.energy_rate_given_to_baby
        < MAX_ENERGY_RATE_GIVEN_TO_BABY
    &&& MIN_IS_A_CHILD_TIME <= c.is_a_child_time < MAX_IS_A_CHILD_TIME
    &&& c.child_time_left == c.is_a_child_time
    &&& c.vx == 0 && c.vy == 0 && c.ax == 0 && c.ay == 0
    &&& !c.is_in_love
    &&& c.generation == 0
    &&& c.state == CreatureState::Neutral
    &&& c.allies == Set::<int>::empty()
}

/// Spawn one creature with every trait drawn uniformly from its sampling
/// range, placed uniformly on the map, at generation zero, without
/// parents.
pub fn spawn_random_creature(world: &mut World) -> (id: usize)
    requires
        old(world)@.wf(),
    ensures
        id == old(world)@.creatures.len(),
        final(world)@.creatures.len() == old(world)@.creatures.len() + 1,
        forall|i: int|
            0 <= i < old(world)@.creatures.len() ==> #[trigger] final(world)@.creatures[i] == old(
                world,
            )@.creatures[i],
        final(world)@.foods == old(world)@.foods,
        randomly_spawned(final(world)@, id as int),
        final(world)@.wf(),
{
    let x = random_in_range(-MAP_WIDTH / 2, MAP_WIDTH / 2);
    let y = random_in_range(-MAP_HEIGHT / 2, MAP_HEIGHT / 2);
    let max_energy = random_in_range(MIN_CREATURE_ENERGY, MAX_CREATURE_ENERGY);
    let energy = (((SPAWN_ENERGY_RATE as u64) * (max_energy as u64)) / 1000) as i64;
    proof {
        vstd::arithmetic::mul::lemma_mul_inequality(
            SPAWN_ENERGY_RATE as int,
            RATE_DENOM as int,
            max_energy as int,
        );
        vstd::arithmetic::div_mod::lemma_multiply_divide_le(
            (SPAWN_ENERGY_RATE as int) * (max_energy as int),
            RATE_DENOM as int,
            max_energy as int,
        );
        vstd::arithmetic::mul::lemma_mul_nonnegative(
            SPAWN_ENERGY_RATE as int,
            max_energy as int,
        );
        vstd::arithmetic::div_mod::lemma_div_pos_is_pos(
            (SPAWN_ENERGY_RATE as int) * (max_energy as int),
            RATE_DENOM as int,
        );
    }
    let neutral_accel_factor = random_in_range(MIN_ACCEL, MAX_ACCEL);
    let eat_accel_factor = random_in_range(MIN_ACCEL, MAX_ACCEL);
    let attack_accel_factor = random_in_range(MIN_ACCEL, MAX_ACCEL);
    let flee_accel_factor = random_in_range(MIN_ACCEL, MAX_ACCEL);
    let love_accel_factor = random_in_range(MIN_ACCEL, MAX_ACCEL);
    let upper_speed = random_in_range(MIN_UPPER_SPEED, MAX_UPPER_SPEED);
    let aggressiveness = random_in_range(
        MIN_CREATURE_AGGRESSIVENESS,
        MAX_CREATURE_AGGRESSIVENESS,
    );
    let attack_power = random_in_range(MIN_ATTACK_POWER, MAX_ATTACK_POWER);
    let hitbox_radius = random_in_range(MIN_HITBOX_RADIUS, MAX_HITBOX_RADIUS);
    let hitbox_repulsion = random_in_range(MIN_HITBOX_REPULSION, MAX_HITBOX_REPULSION);
    let creature_vision_radius = random_in_range(
        MIN_CREATURE_VISION_RADIUS,
        MAX_CREATURE_VISION_RADIUS,
    );
    let food_vision_radius = random_in_range(MIN_FOOD_VISION_RADIUS, MAX_FOOD_VISION_RADIUS);
    let love_vision_radius = random_in_range(MIN_LOVE_VISION_RADIUS, MAX_LOVE_VISION_RADIUS);
    let want_to_love_rate = random_in_range(MIN_WANT_TO_LOVE_RATE, MAX_WANT_TO_LOVE_RATE);
    let energy_rate_given_to_baby = random_in_range(
        MIN_ENERGY_RATE_GIVEN_TO_BABY,
        MAX_ENERGY_RATE_GIVEN_TO_BABY,
    );
    let is_a_child_time = random_in_range(MIN_IS_A_CHILD_TIME, MAX_IS_A_CHILD_TIME);
    spawn_creature(
        world,
        x,
        y,
        energy,
        max_energy,
        neutral_accel_factor,
        eat_accel_factor,
        attack_accel_factor,
        flee_accel_factor,
        love_accel_factor,
        upper_speed,
        aggressiveness,
        attack_power,
        hitbox_radius,
        hitbox_repulsion,
        creature_vision_radius,
        food_vision_radius,
        love_vision_radius,
        want_to_love_rate,
        energy_rate_given_to_baby,
        is_a_child_time,
        0,
        None,
    )
}

/// Place the simulation's starting population: `INITIAL_CREATURE_COUNT`
/// randomly sampled creatures.
pub fn spawn_initial_creatures(world: &mut World)
    requires
        old(world)@.wf(),
    ensures
        final(world)@.creatures.len() == old(world)@.creatures.len()
            + INITIAL_CREATURE_COUNT as int,
        forall|i: int|
            0 <= i < old(world)@.creatures.len() ==> #[trigger] final(world)@.creatures[i] == old(
                world,
            )@.creatures[i],
        forall|i: int|
            old(world)@.creatures.len() <= i < final(world)@.creatures.len()
                ==> randomly_spawned(final(world)@, i),
        final(world)@.foods == old(world)@.foods,
        final(world)@.wf(),
{
    let mut made: u32 = 0;
    while made < INITIAL_CREATURE_COUNT
        invariant
            made <= INITIAL_CREATURE_COUNT,
            world@.creatures.len() == old(world)@.creatures.len() + made as int,
            forall|i: int|
                0 <= i < old(world)@.creatures.len() ==> #[trigger] world@.creatures[i] == old(
                    world,
                )@.creatures[i],
            forall|i: int|
                old(world)@.creatures.len() <= i < world@.creatures.len() ==> randomly_spawned(
                    world@,
                    i,
                ),
            world@.foods == old(world)@.foods,
            world@.wf(),
        decreases INITIAL_CREATURE_COUNT - made,
    {
        let ghost before = world@;
        spawn_random_creature(world);
        proof {
            assert forall|i: int|
                old(world)@.creatures.len() <= i < world@.creatures.len() implies randomly_spawned(
                world@,
                i,
            ) by {
                if i < before.creatures.len() {
                    assert(world@.creatures[i] == before.creatures[i]);
                    assert(randomly_spawned(before, i));
                }
            }
        }
        made += 1;
    }
}

/// Spawn one food item at a uniformly drawn map position, with the fixed
/// food energy yield.
pub fn spawn_random_food(world: &mut World)
    requires
        old(world)@.wf(),
    ensures
        final(world)@.creatures == old(world)@.creatures,
        final(world)@.foods.len() == old(world)@.foods.len() + 1,
        forall|k: int|
            0 <= k < old(world)@.foods.len() ==> #[trigger] final(world)@.foods[k] == old(
                world,
            )@.foods[k],
        -(MAP_WIDTH as int) / 2 <= final(world)@.foods.last().x < (MAP_WIDTH as int) / 2,
        -(MAP_HEIGHT as int) / 2 <= final(world)@.foods.last().y < (MAP_HEIGHT as int) / 2,
        final(world)@.foods.last().energy == FOOD_ENERGY,
        final(world)@.wf(),
{
    let x = random_in_range(-MAP_WIDTH / 2, MAP_WIDTH / 2);
    let y = random_in_range(-MAP_HEIGHT / 2, MAP_HEIGHT / 2);
    spawn_food(world, x, y, FOOD_ENERGY);
}

} // verus!
