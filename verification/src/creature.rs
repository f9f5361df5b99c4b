use vstd::prelude::*;

verus! {

use crate::math::{avg_nn, half_i64, half_toward_zero};
use crate::params::{
    ACCEL_LIMIT, COORD_LIMIT, ENERGY_LIMIT, FACTOR_LIMIT, RADIUS_LIMIT, RATE_DENOM,
    REPULSION_LIMIT, SPEED_LIMIT, TIME_LIMIT, VEL_LIMIT, VISION_LIMIT,
};

/// The behavioural state a creature shows, recomputed every tick.
#[derive(Clone, Copy, Debug, PartialEq, Eq, Structural)]
pub enum CreatureState {
    Neutral,
    SeekingFood,
    InLove,
    Attacking,
    Fleeing,
}

impl Default for CreatureState {
    /// A creature starts out neutral.
    fn default() -> (r: Self)
        ensures
            r == CreatureState::Neutral,
    {
        CreatureState::Neutral
    }
}

/// One living (or despawned) agent of the simulation.
///
/// Positions, velocities and accelerations are plane coordinates; energies
/// are whole units; the two rate traits are thousandths; the two time
/// fields are milliseconds.  `allies` holds the arena indices of creatures
/// this one never fights.  A despawned creature keeps its slot with
/// `alive == false`, so indices stay stable within a run.
#[derive(Clone, Debug)]
pub struct Creature {
    pub alive: bool,
    pub movable: bool,
    pub x: i64,
    pub y: i64,
    pub vx: i64,
    pub vy: i64,
    pub ax: i64,
    pub ay: i64,
    pub energy: i64,
    pub max_energy: i64,
    pub neutral_accel_factor: i64,
    pub eat_accel_factor: i64,
    pub attack_accel_factor: i64,
    pub flee_accel_factor: i64,
    pub love_accel_factor: i64,
    pub upper_speed: i64,
    pub aggressiveness: i64,
    pub attack_power: i64,
    pub hitbox_radius: i64,
    pub hitbox_repulsion: i64,
    pub creature_vision_radius: i64,
    pub food_vision_radius: i64,
    pub love_vision_radius: i64,
    pub want_to_love_rate: i64,
    pub energy_rate_given_to_baby: i64,
    pub is_a_child_time: i64,
    pub child_time_left: i64,
    pub is_in_love: bool,
    pub generation: u32,
    pub state: CreatureState,
    pub allies: Vec<usize>,
}

/// The mathematical image of a [`Creature`]: unbounded integers, and the
/// ally list abstracted to the set of indices it mentions.
#[verifier::ext_equal]
pub ghost struct CreatureModel {
    pub alive: bool,
    pub movable: bool,
    pub x: int,
    pub y: int,
    pub vx: int,
    pub vy: int,
    pub ax: int,
    pub ay: int,
    pub energy: int,
    pub max_energy: int,
    pub neutral_accel_factor: int,
    pub eat_accel_factor: int,
    pub attack_accel_factor: int,
    pub flee_accel_factor: int,
    pub love_accel_factor: int,
    pub upper_speed: int,
    pub aggressiveness: int,
    pub attack_power: int,
    pub hitbox_radius: int,
    pub hitbox_repulsion: int,
    pub creature_vision_radius: int,
    pub food_vision_radius: int,
    pub love_vision_radius: int,
    pub want_to_love_rate: int,
    pub energy_rate_given_to_baby: int,
    pub is_a_child_time: int,
    pub child_time_left: int,
    pub is_in_love: bool,
    pub generation: int,
    pub state: CreatureState,
    pub allies: Set<int>,
}

/// The set of indices an ally list mentions.
pub open spec fn allies_of(s: Seq<usize>) -> Set<int> {
    Set::new(|x: int| exists|k: int| 0 <= k < s.len() && s[k] as int == x)
}

impl View for Creature {
    type V = CreatureModel;

    open spec fn view(&self) -> CreatureModel {
        CreatureModel {
            alive: self.alive,
            movable: self.movable,
            x: self.x as int,
            y: self.y as int,
            vx: self.vx as int,
            vy: self.vy as int,
            ax: self.ax as int,
            ay: self.ay as int,
            energy: self.energy as int,
            max_energy: self.max_energy as int,
            neutral_accel_factor: self.neutral_accel_factor as int,
            eat_accel_factor: self.eat_accel_factor as int,
            attack_accel_factor: self.attack_accel_factor as int,
            flee_accel_factor: self.flee_accel_factor as int,
            love_accel_factor: self.love_accel_factor as int,
            upper_speed: self.upper_speed as int,
            aggressiveness: self.aggressiveness as int,
            attack_power: self.attack_power as int,
            hitbox_radius: self.hitbox_radius as int,
            hitbox_repulsion: self.hitbox_repulsion as int,
            creature_vision_radius: self.creature_vision_radius as int,
            food_vision_radius: self.food_vision_radius as int,
            love_vision_radius: self.love_vision_radius as int,
            want_to_love_rate: self.want_to_love_rate as int,
            energy_rate_given_to_baby: self.energy_rate_given_to_baby as int,
            is_a_child_time: self.is_a_child_time as int,
            child_time_left: self.child_time_left as int,
            is_in_love: self.is_in_love,
            generation: self.generation as int,
            state: self.state,
            allies: allies_of(self.allies@),
        }
    }
}

impl CreatureModel {
    /// Well-formedness: every quantity lies inside its machine limit, and
    /// the energy clamp invariant `0 <= energy <= max_energy` holds.
    pub open spec fn wf(self) -> bool {
        &&& 1 <= self.max_energy <= ENERGY_LIMIT
        &&& 0 <= self.energy <= self.max_energy
        &&& 0 <= self.neutral_accel_factor <= FACTOR_LIMIT
        &&& 0 <= self.eat_accel_factor <= FACTOR_LIMIT
        &&& 0 <= self.attack_accel_factor <= FACTOR_LIMIT
        &&& 0 <= self.flee_accel_factor <= FACTOR_LIMIT
        &&& 0 <= self.love_accel_factor <= FACTOR_LIMIT
        &&& 0 <= self.upper_speed <= SPEED_LIMIT
        &&& 0 <= self.aggressiveness <= ENERGY_LIMIT
        &&& 0 <= self.attack_power <= ENERGY_LIMIT
        &&& 1 <= self.hitbox_radius <= RADIUS_LIMIT
        &&& 1 <= self.hitbox_repulsion <= REPULSION_LIMIT
        &&& 0 <= self.creature_vision_radius <= VISION_LIMIT
        &&& 0 <= self.food_vision_radius <= VISION_LIMIT
        &&& 0 <= self.love_vision_radius <= VISION_LIMIT
        &&& 0 < self.want_to_love_rate < RATE_DENOM
        &&& 0 < self.energy_rate_given_to_baby < RATE_DENOM
        &&& 0 <= self.is_a_child_time <= TIME_LIMIT
        &&& 0 <= self.child_time_left <= TIME_LIMIT
        &&& -COORD_LIMIT <= self.x <= COORD_LIMIT
        &&& -COORD_LIMIT <= self.y <= COORD_LIMIT
        &&& -VEL_LIMIT <= self.vx <= VEL_LIMIT
        &&& -VEL_LIMIT <= self.vy <= VEL_LIMIT
        &&& -ACCEL_LIMIT <= self.ax <= ACCEL_LIMIT
        &&& -ACCEL_LIMIT <= self.ay <= ACCEL_LIMIT
        &&& 0 <= self.generation <= u32::MAX
    }

    /// A creature is a child while its one-shot countdown is running.
    pub open spec fn is_child(self) -> bool {
        self.child_time_left > 0
    }

    /// Mate-readiness by the energy-ratio rule: not a child, and the energy
    /// ratio strictly exceeds the personal threshold.
    pub open spec fn wants_love(self) -> bool {
        !self.is_child() && self.energy * RATE_DENOM > self.want_to_love_rate * self.max_energy
    }
}

impl Creature {
    /// Whether `id` is in this creature's ally list.
    pub fn is_ally(&self, id: usize) -> (r: bool)
        ensures
            r == self@.allies.contains(id as int),
    {
        let n = self.allies.len();
        let mut k: usize = 0;
        while k < n
            invariant
                k <= n,
                n == self.allies@.len(),
                forall|j: int| 0 <= j < k ==> self.allies@[j] != id,
            decreases n - k,
        {
            if self.allies[k] == id {
                return true;
            }
            k += 1;
        }
        false
    }

    /// Record `id` as an ally; every other field is untouched.
    pub fn add_ally(&mut self, id: usize)
        ensures
            final(self)@ == (CreatureModel {
                allies: old(self)@.allies.insert(id as int),
                ..old(self)@
            }),
    {
        let ghost before = self.allies@;
        self.allies.push(id);
        proof {
            assert(allies_of(before.push(id)) =~= allies_of(before).insert(id as int)) by {
                assert forall|x: int| allies_of(before.push(id)).contains(x) implies allies_of(
                    before,
                ).insert(id as int).contains(x) by {
                    let k = choose|k: int|
                        0 <= k < before.push(id).len() && before.push(id)[k] as int == x;
                    if k < before.len() {
                        assert(before[k] as int == x);
                    }
                }
                assert forall|x: int| allies_of(before).insert(id as int).contains(x) implies allies_of(
                    before.push(id),
                ).contains(x) by {
                    if x == id as int {
                        assert(before.push(id)[before.len() as int] as int == x);
                    } else {
                        let k = choose|k: int| 0 <= k < before.len() && before[k] as int == x;
                        assert(before.push(id)[k] as int == x);
                    }
                }
            }
            assert(final(self)@ =~= (CreatureModel {
                allies: old(self)@.allies.insert(id as int),
                ..old(self)@
            }));
        }
    }
}

/// Arithmetic mean of two traits.
pub open spec fn avg(a: int, b: int) -> int {
    (a + b) / 2
}

/// The generation counter of an offspring: one past the larger parent
/// generation, saturating at the counter's top.
pub open spec fn next_generation(ga: int, gb: int) -> int {
    let m = if ga >= gb {
        ga
    } else {
        gb
    };
    if m >= u32::MAX {
        u32::MAX as int
    } else {
        m + 1
    }
}

/// The offspring of the parents at indices `ida` and `idb`: spawned at the
/// midpoint, every numeric trait the arithmetic mean of the parents',
/// energy the mean of the parents' energies, one generation past the older
/// line, allied with both parents, and starting as a child.
pub open spec fn offspring_model(pa: CreatureModel, pb: CreatureModel, ida: int, idb: int) -> CreatureModel {
    CreatureModel {
        alive: true,
        movable: true,
        x: half_toward_zero(pa.x + pb.x),
        y: half_toward_zero(pa.y + pb.y),
        vx: 0,
        vy: 0,
        ax: 0,
        ay: 0,
        energy: avg(pa.energy, pb.energy),
        max_energy: avg(pa.max_energy, pb.max_energy),
        neutral_accel_factor: avg(pa.neutral_accel_factor, pb.neutral_accel_factor),
        eat_accel_factor: avg(pa.eat_accel_factor, pb.eat_accel_factor),
        attack_accel_factor: avg(pa.attack_accel_factor, pb.attack_accel_factor),
        flee_accel_factor: avg(pa.flee_accel_factor, pb.flee_accel_factor),
        love_accel_factor: avg(pa.love_accel_factor, pb.love_accel_factor),
        upper_speed: avg(pa.upper_speed, pb.upper_speed),
        aggressiveness: avg(pa.aggressiveness, pb.aggressiveness),
        attack_power: avg(pa.attack_power, pb.attack_power),
        hitbox_radius: avg(pa.hitbox_radius, pb.hitbox_radius),
        hitbox_repulsion: avg(pa.hitbox_repulsion, pb.hitbox_repulsion),
        creature_vision_radius: avg(pa.creature_vision_radius, pb.creature_vision_radius),
        food_vision_radius: avg(pa.food_vision_radius, pb.food_vision_radius),
        love_vision_radius: avg(pa.love_vision_radius, pb.love_vision_radius),
        want_to_love_rate: avg(pa.want_to_love_rate, pb.want_to_love_rate),
        energy_rate_given_to_baby: avg(pa.energy_rate_given_to_baby, pb.energy_rate_given_to_baby),
        is_a_child_time: avg(pa.is_a_child_time, pb.is_a_child_time),
        child_time_left: avg(pa.is_a_child_time, pb.is_a_child_time),
        is_in_love: false,
        generation: next_generation(pa.generation, pb.generation),
        state: CreatureState::Neutral,
        allies: Set::empty().insert(ida).insert(idb),
    }
}

/// A well-formed offspring comes from well-formed parents.
pub proof fn lemma_offspring_wf(pa: CreatureModel, pb: CreatureModel, ida: int, idb: int)
    requires
        pa.wf(),
        pb.wf(),
    ensures
        offspring_model(pa, pb, ida, idb).wf(),
{
    let o = offspring_model(pa, pb, ida, idb);
    lemma_avg_between(pa.energy, pb.energy);
    lemma_avg_between(pa.max_energy, pb.max_energy);
    vstd::arithmetic::div_mod::lemma_div_is_ordered(
        pa.energy + pb.energy,
        pa.max_energy + pb.max_energy,
        2,
    );
    lemma_avg_between(pa.neutral_accel_factor, pb.neutral_accel_factor);
    lemma_avg_between(pa.eat_accel_factor, pb.eat_accel_factor);
    lemma_avg_between(pa.attack_accel_factor, pb.attack_accel_factor);
    lemma_avg_between(pa.flee_accel_factor, pb.flee_accel_factor);
    lemma_avg_between(pa.love_accel_factor, pb.love_accel_factor);
    lemma_avg_between(pa.upper_speed, pb.upper_speed);
    lemma_avg_between(pa.aggressiveness, pb.aggressiveness);
    lemma_avg_between(pa.attack_power, pb.attack_power);
    lemma_avg_between(pa.hitbox_radius, pb.hitbox_radius);
    lemma_avg_between(pa.hitbox_repulsion, pb.hitbox_repulsion);
    lemma_avg_between(pa.creature_vision_radius, pb.creature_vision_radius);
    lemma_avg_between(pa.food_vision_radius, pb.food_vision_radius);
    lemma_avg_between(pa.love_vision_radius, pb.love_vision_radius);
    lemma_avg_between(pa.want_to_love_rate, pb.want_to_love_rate);
    lemma_avg_between(pa.energy_rate_given_to_baby, pb.energy_rate_given_to_baby);
    lemma_avg_between(pa.is_a_child_time, pb.is_a_child_time);
    assert(-COORD_LIMIT <= o.x <= COORD_LIMIT && -COORD_LIMIT <= o.y <= COORD_LIMIT) by {
        lemma_half_toward_zero_between(pa.x, pb.x, -COORD_LIMIT as int, COORD_LIMIT as int);
        lemma_half_toward_zero_between(pa.y, pb.y, -COORD_LIMIT as int, COORD_LIMIT as int);
    }
}

/// The mean of two values between their smaller and larger one.
pub proof fn lemma_avg_between(a: int, b: int)
    requires
        0 <= a,
        0 <= b,
    ensures
        a <= b ==> a <= avg(a, b) <= b,
        b <= a ==> b <= avg(a, b) <= a,
{
    assert(a <= b ==> a <= (a + b) / 2 <= b) by (nonlinear_arith);
    assert(b <= a ==> b <= (a + b) / 2 <= a) by (nonlinear_arith);
}

/// Truncated halving of a sum stays between the bounds of its addends.
pub proof fn lemma_half_toward_zero_between(a: int, b: int, lo: int, hi: int)
    requires
        lo <= a <= hi,
        lo <= b <= hi,
        lo <= 0 <= hi,
    ensures
        lo <= half_toward_zero(a + b) <= hi,
{
    let s = a + b;
    if s >= 0 {
        assert(0 <= s / 2 <= hi) by (nonlinear_arith)
            requires
                0 <= s <= 2 * hi,
        ;
    } else {
        assert(0 <= (-s) / 2 <= -lo) by (nonlinear_arith)
            requires
                0 <= -s <= 2 * (-lo),
        ;
    }
}

/// Executable offspring construction, exact against [`offspring_model`].
pub fn offspring(pa: &Creature, pb: &Creature, ida: usize, idb: usize) -> (c: Creature)
    requires
        pa@.wf(),
        pb@.wf(),
    ensures
        c@ == offspring_model(pa@, pb@, ida as int, idb as int),
        c@.wf(),
{
    proof {
        lemma_offspring_wf(pa@, pb@, ida as int, idb as int);
    }
    let mut allies: Vec<usize> = Vec::new();
    allies.push(ida);
    allies.push(idb);
    let gmax = if pa.generation >= pb.generation {
        pa.generation
    } else {
        pb.generation
    };
    let child_time = avg_nn(pa.is_a_child_time, pb.is_a_child_time);
    let c = Creature {
        alive: true,
        movable: true,
        x: half_i64(pa.x + pb.x),
        y: half_i64(pa.y + pb.y),
        vx: 0,
        vy: 0,
        ax: 0,
        ay: 0,
        energy: avg_nn(pa.energy, pb.energy),
        max_energy: avg_nn(pa.max_energy, pb.max_energy),
        neutral_accel_factor: avg_nn(pa.neutral_accel_factor, pb.neutral_accel_factor),
        eat_accel_factor: avg_nn(pa.eat_accel_factor, pb.eat_accel_factor),
        attack_accel_factor: avg_nn(pa.attack_accel_factor, pb.attack_accel_factor),
        flee_accel_factor: avg_nn(pa.flee_accel_factor, pb.flee_accel_factor),
        love_accel_factor: avg_nn(pa.love_accel_factor, pb.love_accel_factor),
        upper_speed: avg_nn(pa.upper_speed, pb.upper_speed),
        aggressiveness: avg_nn(pa.aggressiveness, pb.aggressiveness),
        attack_power: avg_nn(pa.attack_power, pb.attack_power),
        hitbox_radius: avg_nn(pa.hitbox_radius, pb.hitbox_radius),
        hitbox_repulsion: avg_nn(pa.hitbox_repulsion, pb.hitbox_repulsion),
        creature_vision_radius: avg_nn(pa.creature_vision_radius, pb.creature_vision_radius),
        food_vision_radius: avg_nn(pa.food_vision_radius, pb.food_vision_radius),
        love_vision_radius: avg_nn(pa.love_vision_radius, pb.love_vision_radius),
        want_to_love_rate: avg_nn(pa.want_to_love_rate, pb.want_to_love_rate),
        energy_rate_given_to_baby: avg_nn(
            pa.energy_rate_given_to_baby,
            pb.energy_rate_given_to_baby,
        ),
        is_a_child_time: child_time,
        child_time_left: child_time,
        is_in_love: false,
        generation: if gmax == u32::MAX {
            gmax
        } else {
            gmax + 1
        },
        state: CreatureState::Neutral,
        allies,
    };
    proof {
        assert(allies_of(c.allies@) =~= Set::empty().insert(ida as int).insert(idb as int)) by {
            assert(c.allies@[0] == ida && c.allies@[1] == idb && c.allies@.len() == 2);
            assert forall|x: int| allies_of(c.allies@).contains(x) implies Set::empty().insert(
                ida as int,
            ).insert(idb as int).contains(x) by {
                let k = choose|k: int| 0 <= k < c.allies@.len() && c.allies@[k] as int == x;
            }
        }
        assert(c@ =~= offspring_model(pa@, pb@, ida as int, idb as int));
    }
    c
}


/// The energy left after a sequence of drains and gains, each applied
/// with the clamp into `[0, max]`.
pub open spec fn energy_after(e: int, max: int, deltas: Seq<int>) -> int
    decreases deltas.len(),
{
    if deltas.len() == 0 {
        e
    } else {
        crate::math::clamp(energy_after(e, max, deltas.drop_last()) + deltas.last(), 0, max)
    }
}

/// The energy clamp: for every sequence of drains and gains applied to a
/// well-formed starting energy, `0 <= energy <= max` holds after every
/// step, the final state included.
pub proof fn lemma_energy_clamp(e: int, max: int, deltas: Seq<int>)
    requires
        0 <= e <= max,
    ensures
        0 <= energy_after(e, max, deltas) <= max,
    decreases deltas.len(),
{
    if deltas.len() > 0 {
        lemma_energy_clamp(e, max, deltas.drop_last());
    }
}


/// Generation increment: an offspring's generation is one past the larger
/// parent generation, whenever that counter has room to grow.
pub proof fn lemma_generation_increment(pa: CreatureModel, pb: CreatureModel, ida: int, idb: int)
    ensures
        pa.generation < u32::MAX && pb.generation < u32::MAX ==> offspring_model(
            pa,
            pb,
            ida,
            idb,
        ).generation == (if pa.generation >= pb.generation {
            pa.generation
        } else {
            pb.generation
        }) + 1,
{
}

} // verus!
