use vstd::prelude::*;

verus! {

use crate::creature::{allies_of, Creature, CreatureModel, CreatureState};
use crate::math::{clamp, clamp_i64, iabs, mul_div, rate_scaled};
use crate::params::{
    ACCEL_LIMIT, COORD_LIMIT, DT_LIMIT, ENERGY_LIMIT, FACTOR_LIMIT, RADIUS_LIMIT, RATE_DENOM,
    REPULSION_LIMIT, SPEED_LIMIT, TIME_LIMIT, VEL_LIMIT, VISION_LIMIT,
};

/// A spawned food item: a position and the energy it yields when eaten.
#[derive(Clone, Copy, Debug, PartialEq, Eq, Structural)]
pub struct Food {
    pub x: i64,
    pub y: i64,
    pub energy: i64,
}

/// The mathematical image of a [`Food`].
#[verifier::ext_equal]
pub ghost struct FoodModel {
    pub x: int,
    pub y: int,
    pub energy: int,
}

impl View for Food {
    type V = FoodModel;

    open spec fn view(&self) -> FoodModel {
        FoodModel { x: self.x as int, y: self.y as int, energy: self.energy as int }
    }
}

impl FoodModel {
    /// Well-formedness: the position lies on the map's coordinate range and
    /// the yield is a bounded, non-negative amount.
    pub open spec fn wf(self) -> bool {
        &&& -COORD_LIMIT <= self.x <= COORD_LIMIT
        &&& -COORD_LIMIT <= self.y <= COORD_LIMIT
        &&& 0 <= self.energy <= ENERGY_LIMIT
    }
}

/// The whole simulation state: the creature arena and the live food items.
///
/// Creature slots are never reused; a despawned creature stays in place
/// with `alive == false`, so the index of a creature identifies it for the
/// whole run (ally lists and collision events refer to these indices).
#[derive(Clone, Debug)]
pub struct World {
    pub creatures: Vec<Creature>,
    pub foods: Vec<Food>,
}

/// The mathematical image of a [`World`].
#[verifier::ext_equal]
pub ghost struct WorldModel {
    pub creatures: Seq<CreatureModel>,
    pub foods: Seq<FoodModel>,
}

impl View for World {
    type V = WorldModel;

    open spec fn view(&self) -> WorldModel {
        WorldModel {
            creatures: self.creatures@.map_values(|c: Creature| c@),
            foods: self.foods@.map_values(|f: Food| f@),
        }
    }
}

impl WorldModel {
    /// Every creature and every food item is well-formed.
    pub open spec fn wf(self) -> bool {
        &&& forall|i: int| 0 <= i < self.creatures.len() ==> (#[trigger] self.creatures[i]).wf()
        &&& forall|k: int| 0 <= k < self.foods.len() ==> (#[trigger] self.foods[k]).wf()
    }
}

/// The view of the arena indexes pointwise into the views of its slots.
pub proof fn lemma_world_view_index(w: World, j: int)
    requires
        0 <= j < w.creatures@.len(),
    ensures
        w@.creatures.len() == w.creatures@.len(),
        w@.creatures[j] == w.creatures@[j]@,
{
}

impl World {
    /// An empty world: no creatures, no food.
    pub fn new() -> (w: World)
        ensures
            w@.creatures =~= Seq::<CreatureModel>::empty(),
            w@.foods =~= Seq::<FoodModel>::empty(),
            w@.wf(),
    {
        World { creatures: Vec::new(), foods: Vec::new() }
    }
}

/// The view of the food list indexes pointwise into the views of its items.
pub proof fn lemma_world_food_index(w: World, k: int)
    requires
        0 <= k < w.foods@.len(),
    ensures
        w@.foods.len() == w.foods@.len(),
        w@.foods[k] == w.foods@[k]@,
{
}

/// The record a freshly spawned creature carries: at `(x, y)`, at rest,
/// neutral, not in love, starting its child phase, and allied with its
/// parents if it has any.
pub open spec fn fresh_creature_model(
    x: int,
    y: int,
    energy: int,
    max_energy: int,
    neutral_accel_factor: int,
    eat_accel_factor: int,
    attack_accel_factor: int,
    flee_accel_factor: int,
    love_accel_factor: int,
    upper_speed: int,
    aggressiveness: int,
    attack_power: int,
    hitbox_radius: int,
    hitbox_repulsion: int,
    creature_vision_radius: int,
    food_vision_radius: int,
    love_vision_radius: int,
    want_to_love_rate: int,
    energy_rate_given_to_baby: int,
    is_a_child_time: int,
    generation: int,
    parents: Option<(int, int)>,
) -> CreatureModel {
    CreatureModel {
        alive: true,
        movable: true,
        x: x,
        y: y,
        vx: 0,
        vy: 0,
        ax: 0,
        ay: 0,
        energy: energy,
        max_energy: max_energy,
        neutral_accel_factor: neutral_accel_factor,
        eat_accel_factor: eat_accel_factor,
        attack_accel_factor: attack_accel_factor,
        flee_accel_factor: flee_accel_factor,
        love_accel_factor: love_accel_factor,
        upper_speed: upper_speed,
        aggressiveness: aggressiveness,
        attack_power: attack_power,
        hitbox_radius: hitbox_radius,
        hitbox_repulsion: hitbox_repulsion,
        creature_vision_radius: creature_vision_radius,
        food_vision_radius: food_vision_radius,
        love_vision_radius: love_vision_radius,
        want_to_love_rate: want_to_love_rate,
        energy_rate_given_to_baby: energy_rate_given_to_baby,
        is_a_child_time: is_a_child_time,
        child_time_left: is_a_child_time,
        is_in_love: false,
        generation: generation,
        state: CreatureState::Neutral,
        allies: match parents {
            None => Set::empty(),
            Some((pa, pb)) => Set::empty().insert(pa).insert(pb),
        },
    }
}

/// Append a freshly spawned creature to the arena and hand back its index.
pub fn spawn_creature(
    world: &mut World,
    x: i64,
    y: i64,
    energy: i64,
    max_energy: i64,
    neutral_accel_factor: i64,
    eat_accel_factor: i64,
    attack_accel_factor: i64,
    flee_accel_factor: i64,
    love_accel_factor: i64,
    upper_speed: i64,
    aggressiveness: i64,
    attack_power: i64,
    hitbox_radius: i64,
    hitbox_repulsion: i64,
    creature_vision_radius: i64,
    food_vision_radius: i64,
    love_vision_radius: i64,
    want_to_love_rate: i64,
    energy_rate_given_to_baby: i64,
    is_a_child_time: i64,
    generation: u32,
    parents: Option<(usize, usize)>,
) -> (id: usize)
    requires
        -COORD_LIMIT <= x <= COORD_LIMIT,
        -COORD_LIMIT <= y <= COORD_LIMIT,
        1 <= max_energy <= ENERGY_LIMIT,
        0 <= energy <= max_energy,
        0 <= neutral_accel_factor <= FACTOR_LIMIT,
        0 <= eat_accel_factor <= FACTOR_LIMIT,
        0 <= attack_accel_factor <= FACTOR_LIMIT,
        0 <= flee_accel_factor <= FACTOR_LIMIT,
        0 <= love_accel_factor <= FACTOR_LIMIT,
        0 <= upper_speed <= SPEED_LIMIT,
        0 <= aggressiveness <= ENERGY_LIMIT,
        0 <= attack_power <= ENERGY_LIMIT,
        1 <= hitbox_radius <= RADIUS_LIMIT,
        1 <= hitbox_repulsion <= REPULSION_LIMIT,
        0 <= creature_vision_radius <= VISION_LIMIT,
        0 <= food_vision_radius <= VISION_LIMIT,
        0 <= love_vision_radius <= VISION_LIMIT,
        0 < want_to_love_rate < RATE_DENOM,
        0 < energy_rate_given_to_baby < RATE_DENOM,
        0 <= is_a_child_time <= TIME_LIMIT,
    ensures
        id == old(world)@.creatures.len(),
        final(world)@.creatures == old(world)@.creatures.push(
            fresh_creature_model(
                x as int,
                y as int,
                energy as int,
                max_energy as int,
                neutral_accel_factor as int,
                eat_accel_factor as int,
                attack_accel_factor as int,
                flee_accel_factor as int,
                love_accel_factor as int,
                upper_speed as int,
                aggressiveness as int,
                attack_power as int,
                hitbox_radius as int,
                hitbox_repulsion as int,
                creature_vision_radius as int,
                food_vision_radius as int,
                love_vision_radius as int,
                want_to_love_rate as int,
                energy_rate_given_to_baby as int,
                is_a_child_time as int,
                generation as int,
                match parents {
                    None => None,
                    Some((pa, pb)) => Some((pa as int, pb as int)),
                },
            ),
        ),
        final(world)@.foods == old(world)@.foods,
        old(world)@.wf() ==> final(world)@.wf(),
{
    let mut allies: Vec<usize> = Vec::new();
    if let Some((pa, pb)) = parents {
        allies.push(pa);
        allies.push(pb);
    }
    let c = Creature {
        alive: true,
        movable: true,
        x,
        y,
        vx: 0,
        vy: 0,
        ax: 0,
        ay: 0,
        energy,
        max_energy,
        neutral_accel_factor,
        eat_accel_factor,
        attack_accel_factor,
        flee_accel_factor,
        love_accel_factor,
        upper_speed,
        aggressiveness,
        attack_power,
        hitbox_radius,
        hitbox_repulsion,
        creature_vision_radius,
        food_vision_radius,
        love_vision_radius,
        want_to_love_rate,
        energy_rate_given_to_baby,
        is_a_child_time,
        child_time_left: is_a_child_time,
        is_in_love: false,
        generation,
        state: CreatureState::Neutral,
        allies,
    };
    let id = world.creatures.len();
    proof {
        match parents {
            None => {
                assert(allies_of(c.allies@) =~= Set::<int>::empty());
            },
            Some((pa, pb)) => {
                assert(allies_of(c.allies@) =~= Set::empty().insert(pa as int).insert(
                    pb as int,
                )) by {
                    assert(c.allies@[0] == pa && c.allies@[1] == pb && c.allies@.len() == 2);
                    assert forall|v: int| allies_of(c.allies@).contains(v) implies Set::empty()
                        .insert(pa as int).insert(pb as int).contains(v) by {
                        let k = choose|k: int|
                            0 <= k < c.allies@.len() && c.allies@[k] as int == v;
                    }
                }
            },
        }
        assert(c@ =~= fresh_creature_model(
            x as int,
            y as int,
            energy as int,
            max_energy as int,
            neutral_accel_factor as int,
            eat_accel_factor as int,
            attack_accel_factor as int,
            flee_accel_factor as int,
            love_accel_factor as int,
            upper_speed as int,
            aggressiveness as int,
            attack_power as int,
            hitbox_radius as int,
            hitbox_repulsion as int,
            creature_vision_radius as int,
            food_vision_radius as int,
            love_vision_radius as int,
            want_to_love_rate as int,
            energy_rate_given_to_baby as int,
            is_a_child_time as int,
            generation as int,
            match parents {
                None => None,
                Some((pa, pb)) => Some((pa as int, pb as int)),
            },
        ));
    }
    world.creatures.push(c);
    proof {
        assert(final(world)@.creatures =~= old(world)@.creatures.push(c@));
        assert(final(world)@.foods =~= old(world)@.foods);
        if old(world)@.wf() {
            assert forall|i: int| 0 <= i < final(world)@.creatures.len() implies (
            #[trigger] final(world)@.creatures[i]).wf() by {
                if i < old(world)@.creatures.len() {
                    assert(old(world)@.creatures[i].wf());
                }
            }
        }
    }
    id
}

/// Append a food item.
pub fn spawn_food(world: &mut World, x: i64, y: i64, energy: i64)
    requires
        -COORD_LIMIT <= x <= COORD_LIMIT,
        -COORD_LIMIT <= y <= COORD_LIMIT,
        0 <= energy <= ENERGY_LIMIT,
    ensures
        final(world)@.foods == old(world)@.foods.push(
            FoodModel { x: x as int, y: y as int, energy: energy as int },
        ),
        final(world)@.creatures == old(world)@.creatures,
        old(world)@.wf() ==> final(world)@.wf(),
{
    world.foods.push(Food { x, y, energy });
    proof {
        assert(final(world)@.foods =~= old(world)@.foods.push(
            FoodModel { x: x as int, y: y as int, energy: energy as int },
        ));
        assert(final(world)@.creatures =~= old(world)@.creatures);
        if old(world)@.wf() {
            assert forall|k: int| 0 <= k < final(world)@.foods.len() implies (
            #[trigger] final(world)@.foods[k]).wf() by {
                if k < old(world)@.foods.len() {
                    assert(old(world)@.foods[k].wf());
                }
            }
        }
    }
}

/// One creature moved by the kinematic step: acceleration feeds velocity,
/// the new velocity feeds position, each over `dt` milliseconds, and both
/// results saturate at the machine limits of the plane.
pub open spec fn moved_model(c: CreatureModel, dt: int) -> CreatureModel {
    let vx = clamp(c.vx + rate_scaled(c.ax, dt, 1000), -VEL_LIMIT as int, VEL_LIMIT as int);
    let vy = clamp(c.vy + rate_scaled(c.ay, dt, 1000), -VEL_LIMIT as int, VEL_LIMIT as int);
    let x = clamp(c.x + rate_scaled(vx, dt, 1000), -COORD_LIMIT as int, COORD_LIMIT as int);
    let y = clamp(c.y + rate_scaled(vy, dt, 1000), -COORD_LIMIT as int, COORD_LIMIT as int);
    CreatureModel { vx: vx, vy: vy, x: x, y: y, ..c }
}

/// Advance one creature's motion state, exact against [`moved_model`].
fn move_creature(c: &mut Creature, dt: i64)
    requires
        old(c)@.wf(),
        0 <= dt <= DT_LIMIT,
    ensures
        final(c)@ == moved_model(old(c)@, dt as int),
        final(c)@.wf(),
{
    proof {
        lemma_rate_bound(c.ax as int, dt as int, ACCEL_LIMIT as int);
        lemma_rate_bound(c.ay as int, dt as int, ACCEL_LIMIT as int);
    }
    let dvx = mul_div(c.ax, dt, 1000);
    let dvy = mul_div(c.ay, dt, 1000);
    c.vx = clamp_i64(c.vx + dvx, -VEL_LIMIT, VEL_LIMIT);
    c.vy = clamp_i64(c.vy + dvy, -VEL_LIMIT, VEL_LIMIT);
    proof {
        lemma_rate_bound(c.vx as int, dt as int, VEL_LIMIT as int);
        lemma_rate_bound(c.vy as int, dt as int, VEL_LIMIT as int);
    }
    let dx = mul_div(c.vx, dt, 1000);
    let dy = mul_div(c.vy, dt, 1000);
    c.x = clamp_i64(c.x + dx, -COORD_LIMIT, COORD_LIMIT);
    c.y = clamp_i64(c.y + dy, -COORD_LIMIT, COORD_LIMIT);
}

/// The magnitude of a scaled rate is bounded by `(m * DT_LIMIT) / 1000`.
proof fn lemma_rate_bound(a: int, dt: int, m: int)
    requires
        -m <= a <= m,
        0 <= dt <= DT_LIMIT,
        0 <= m,
    ensures
        iabs(a) * dt / 1000 <= m * (DT_LIMIT as int) / 1000,
        iabs(rate_scaled(a, dt, 1000)) <= m * (DT_LIMIT as int) / 1000,
{
    assert(iabs(a) * dt <= m * (DT_LIMIT as int)) by (nonlinear_arith)
        requires
            0 <= iabs(a) <= m,
            0 <= dt <= DT_LIMIT as int,
    ;
    vstd::arithmetic::div_mod::lemma_div_is_ordered(iabs(a) * dt, m * (DT_LIMIT as int), 1000);
    assert(iabs(rate_scaled(a, dt, 1000)) == iabs(a) * dt / 1000) by {
        if a >= 0 {
            assert(rate_scaled(a, dt, 1000) == a * dt / 1000);
            vstd::arithmetic::div_mod::lemma_div_pos_is_pos(a * dt, 1000);
            assert(a * dt >= 0) by (nonlinear_arith)
                requires
                    a >= 0,
                    dt >= 0,
            ;
        } else {
            assert((-a) * dt >= 0) by (nonlinear_arith)
                requires
                    a < 0,
                    dt >= 0,
            ;
            vstd::arithmetic::div_mod::lemma_div_pos_is_pos((-a) * dt, 1000);
        }
    }
}

/// Advance every living creature by the kinematic step; despawned slots
/// and food are untouched.
pub fn integrate_motion(world: &mut World, dt: i64)
    requires
        old(world)@.wf(),
        0 <= dt <= DT_LIMIT,
    ensures
        final(world)@.creatures.len() == old(world)@.creatures.len(),
        forall|i: int|
            0 <= i < old(world)@.creatures.len() ==> #[trigger] final(world)@.creatures[i] == (
            if old(world)@.creatures[i].alive {
                moved_model(old(world)@.creatures[i], dt as int)
            } else {
                old(world)@.creatures[i]
            }),
        final(world)@.foods == old(world)@.foods,
        final(world)@.wf(),
{
    let n = world.creatures.len();
    let mut i: usize = 0;
    while i < n
        invariant
            i <= n,
            n == world.creatures@.len(),
            world@.creatures.len() == old(world)@.creatures.len(),
            0 <= dt <= DT_LIMIT,
            forall|j: int|
                0 <= j < i ==> #[trigger] world@.creatures[j] == (
                if old(world)@.creatures[j].alive {
                    moved_model(old(world)@.creatures[j], dt as int)
                } else {
                    old(world)@.creatures[j]
                }),
            forall|j: int|
                i <= j < n ==> #[trigger] world@.creatures[j] == old(world)@.creatures[j],
            world@.foods == old(world)@.foods,
            world@.wf(),
        decreases n - i,
    {
        if world.creatures[i].alive {
            let ghost prev = *world;
            proof {
                lemma_world_view_index(prev, i as int);
            }
            let c = &mut world.creatures[i];
            move_creature(c, dt);
            proof {
                assert forall|j: int| 0 <= j < n implies #[trigger] world@.creatures[j] == (
                if j == i {
                    moved_model(prev@.creatures[j], dt as int)
                } else {
                    prev@.creatures[j]
                }) by {
                    lemma_world_view_index(*world, j);
                    lemma_world_view_index(prev, j);
                }
                assert(world@.foods =~= prev@.foods);
            }
        }
        i += 1;
    }
}

} // verus!
