use vstd::prelude::*;

verus! {

use crate::creature::{Creature, CreatureModel, CreatureState};
use crate::math::{dist2, dist2_i64, isqrt, isqrt_ceil, scale_dir, scaled, sqrt_ceil, sqrt_floor, square_nn};
use crate::math::{lemma_scaled_cap, lemma_sqrt_ceil_bound, lemma_sqrt_floor_bracket, lemma_sqrt_floor_component};
use crate::params::{COORD_LIMIT, FACTOR_LIMIT};
use crate::search::{first_min, lemma_first_min};
use crate::world::{lemma_world_food_index, lemma_world_view_index, World, WorldModel};

// The three searches of the decision procedure.  Every candidate is judged
// from the point of view of creature `i`; distances compare squared, which
// orders exactly as the Euclidean distance does.

/// Squared distance from creature `i` to creature `j`.
pub open spec fn cdist(w: WorldModel, i: int) -> spec_fn(int) -> int {
    |j: int|
        dist2(w.creatures[i].x, w.creatures[i].y, w.creatures[j].x, w.creatures[j].y)
}

/// Squared distance from creature `i` to food item `k`.
pub open spec fn fdist(w: WorldModel, i: int) -> spec_fn(int) -> int {
    |k: int| dist2(w.creatures[i].x, w.creatures[i].y, w.foods[k].x, w.foods[k].y)
}

/// A courtship candidate for creature `i`: another living mate-ready
/// creature at a distinct position, within love vision.  Allies are *not*
/// excluded here.
pub open spec fn mate_eligible(w: WorldModel, i: int, j: int) -> bool {
    &&& 0 <= j < w.creatures.len()
    &&& j != i
    &&& w.creatures[j].alive
    &&& w.creatures[j].is_in_love
    &&& !(w.creatures[j].x == w.creatures[i].x && w.creatures[j].y == w.creatures[i].y)
    &&& cdist(w, i)(j) <= w.creatures[i].love_vision_radius * w.creatures[i].love_vision_radius
}

/// A rival candidate for creature `i`: another living creature at a
/// distinct position, within creature vision, and not an ally.
pub open spec fn rival_eligible(w: WorldModel, i: int, j: int) -> bool {
    &&& 0 <= j < w.creatures.len()
    &&& j != i
    &&& w.creatures[j].alive
    &&& !(w.creatures[j].x == w.creatures[i].x && w.creatures[j].y == w.creatures[i].y)
    &&& !w.creatures[i].allies.contains(j)
    &&& cdist(w, i)(j) <= w.creatures[i].creature_vision_radius
        * w.creatures[i].creature_vision_radius
}

/// A food candidate for creature `i`: any food item within food vision.
pub open spec fn food_eligible(w: WorldModel, i: int, k: int) -> bool {
    &&& 0 <= k < w.foods.len()
    &&& fdist(w, i)(k) <= w.creatures[i].food_vision_radius * w.creatures[i].food_vision_radius
}

pub open spec fn mate_elig(w: WorldModel, i: int) -> spec_fn(int) -> bool {
    |j: int| mate_eligible(w, i, j)
}

pub open spec fn rival_elig(w: WorldModel, i: int) -> spec_fn(int) -> bool {
    |j: int| rival_eligible(w, i, j)
}

pub open spec fn food_elig(w: WorldModel, i: int) -> spec_fn(int) -> bool {
    |k: int| food_eligible(w, i, k)
}

/// The mate creature `i` steers toward, if any.
pub open spec fn chosen_mate(w: WorldModel, i: int) -> Option<int> {
    first_min(w.creatures.len() as int, mate_elig(w, i), cdist(w, i))
}

/// The rival creature `i` attacks or flees, if any.
pub open spec fn chosen_rival(w: WorldModel, i: int) -> Option<int> {
    first_min(w.creatures.len() as int, rival_elig(w, i), cdist(w, i))
}

/// The food item creature `i` seeks, if any.
pub open spec fn chosen_food(w: WorldModel, i: int) -> Option<int> {
    first_min(w.foods.len() as int, food_elig(w, i), fdist(w, i))
}

/// The outcome of the decision procedure for one creature and one tick:
/// the behavioural state shown, the position steered toward (`None` holds
/// the previous drive), and the steering-force factor (negative to steer
/// away from the target).
#[derive(Clone, Copy, Debug)]
pub struct Decision {
    pub state: CreatureState,
    pub target: Option<(i64, i64)>,
    pub factor: i64,
}

/// The mathematical image of a [`Decision`].
#[verifier::ext_equal]
pub ghost struct DecisionModel {
    pub state: CreatureState,
    pub target: Option<(int, int)>,
    pub factor: int,
}

impl View for Decision {
    type V = DecisionModel;

    open spec fn view(&self) -> DecisionModel {
        DecisionModel {
            state: self.state,
            target: match self.target {
                None => None,
                Some((tx, ty)) => Some((tx as int, ty as int)),
            },
            factor: self.factor as int,
        }
    }
}

impl DecisionModel {
    /// Bounds under which a decision can be applied: the factor is a
    /// bounded steering force and the target lies on the map.
    pub open spec fn wf(self) -> bool {
        &&& -FACTOR_LIMIT <= self.factor <= FACTOR_LIMIT
        &&& match self.target {
            None => true,
            Some((tx, ty)) => -COORD_LIMIT <= tx <= COORD_LIMIT && -COORD_LIMIT <= ty
                <= COORD_LIMIT,
        }
    }
}

/// The fixed-priority decision procedure of the state evaluator, for the
/// creature at index `i`.  First match wins:
/// mate-ready -> the nearest mate-ready creature (state `InLove`); else a
/// nearest visible non-ally rival -> `Attacking` when strictly more
/// aggressive, `Fleeing` (negated factor) otherwise; else the nearest
/// visible food -> `SeekingFood`; else `Neutral` with a net-zero drive.
pub open spec fn decide(w: WorldModel, i: int) -> DecisionModel {
    let c = w.creatures[i];
    if c.is_in_love {
        match chosen_mate(w, i) {
            Some(j) => DecisionModel {
                state: CreatureState::InLove,
                target: Some((w.creatures[j].x, w.creatures[j].y)),
                factor: c.love_accel_factor,
            },
            None => DecisionModel {
                state: CreatureState::InLove,
                target: None,
                factor: c.love_accel_factor,
            },
        }
    } else {
        match chosen_rival(w, i) {
            Some(j) => if c.aggressiveness > w.creatures[j].aggressiveness {
                DecisionModel {
                    state: CreatureState::Attacking,
                    target: Some((w.creatures[j].x, w.creatures[j].y)),
                    factor: c.attack_accel_factor,
                }
            } else {
                DecisionModel {
                    state: CreatureState::Fleeing,
                    target: Some((w.creatures[j].x, w.creatures[j].y)),
                    factor: -c.flee_accel_factor,
                }
            },
            None => match chosen_food(w, i) {
                Some(k) => DecisionModel {
                    state: CreatureState::SeekingFood,
                    target: Some((w.foods[k].x, w.foods[k].y)),
                    factor: c.eat_accel_factor,
                },
                None => DecisionModel {
                    state: CreatureState::Neutral,
                    target: Some((c.x, c.y)),
                    factor: c.neutral_accel_factor,
                },
            },
        }
    }
}

/// In a well-formed world every decision is applicable.
pub proof fn lemma_decide_wf(w: WorldModel, i: int)
    requires
        w.wf(),
        0 <= i < w.creatures.len(),
    ensures
        decide(w, i).wf(),
{
    lemma_first_min(w.creatures.len() as int, mate_elig(w, i), cdist(w, i));
    lemma_first_min(w.creatures.len() as int, rival_elig(w, i), cdist(w, i));
    lemma_first_min(w.foods.len() as int, food_elig(w, i), fdist(w, i));
}

/// The nearest mate-ready creature visible to creature `i`.
fn nearest_mate(world: &World, i: usize) -> (r: Option<usize>)
    requires
        world@.wf(),
        i < world.creatures.len(),
    ensures
        match r {
            None => chosen_mate(world@, i as int) is None,
            Some(b) => chosen_mate(world@, i as int) == Some(b as int),
        },
{
    proof {
        lemma_world_view_index(*world, i as int);
        assert(world@.creatures[i as int].wf());
    }
    let n = world.creatures.len();
    let cx = world.creatures[i].x;
    let cy = world.creatures[i].y;
    let lv2 = square_nn(world.creatures[i].love_vision_radius);
    let mut best: Option<usize> = None;
    let mut best_d: i64 = 0;
    let mut j: usize = 0;
    while j < n
        invariant
            j <= n,
            i < n,
            n == world.creatures@.len(),
            world@.wf(),
            cx as int == world@.creatures[i as int].x,
            cy as int == world@.creatures[i as int].y,
            lv2 as int == world@.creatures[i as int].love_vision_radius
                * world@.creatures[i as int].love_vision_radius,
            match best {
                None => first_min(j as int, mate_elig(world@, i as int), cdist(world@, i as int))
                    is None,
                Some(b) => first_min(j as int, mate_elig(world@, i as int), cdist(world@, i as int))
                    == Some(b as int) && b < n && best_d as int == cdist(world@, i as int)(
                b as int),
            },
        decreases n - j,
    {
        proof {
            lemma_world_view_index(*world, j as int);
            assert(world@.creatures[j as int].wf());
        }
        let cj = &world.creatures[j];
        let d = dist2_i64(cx, cy, cj.x, cj.y);
        let elig = cj.alive && cj.is_in_love && j != i && !(cj.x == cx && cj.y == cy) && d <= lv2;
        proof {
            assert(elig == mate_eligible(world@, i as int, j as int));
        }
        if elig {
            let take = match best {
                None => true,
                Some(_) => d < best_d,
            };
            if take {
                best = Some(j);
                best_d = d;
            }
        }
        j += 1;
    }
    best
}

/// The nearest visible non-ally rival of creature `i`.
fn nearest_rival(world: &World, i: usize) -> (r: Option<usize>)
    requires
        world@.wf(),
        i < world.creatures.len(),
    ensures
        match r {
            None => chosen_rival(world@, i as int) is None,
            Some(b) => chosen_rival(world@, i as int) == Some(b as int),
        },
{
    proof {
        lemma_world_view_index(*world, i as int);
        assert(world@.creatures[i as int].wf());
    }
    let n = world.creatures.len();
    let cx = world.creatures[i].x;
    let cy = world.creatures[i].y;
    let cv2 = square_nn(world.creatures[i].creature_vision_radius);
    let mut best: Option<usize> = None;
    let mut best_d: i64 = 0;
    let mut j: usize = 0;
    while j < n
        invariant
            j <= n,
            i < n,
            n == world.creatures@.len(),
            world@.wf(),
            cx as int == world@.creatures[i as int].x,
            cy as int == world@.creatures[i as int].y,
            cv2 as int == world@.creatures[i as int].creature_vision_radius
                * world@.creatures[i as int].creature_vision_radius,
            match best {
                None => first_min(j as int, rival_elig(world@, i as int), cdist(world@, i as int))
                    is None,
                Some(b) => first_min(
                    j as int,
                    rival_elig(world@, i as int),
                    cdist(world@, i as int),
                ) == Some(b as int) && b < n && best_d as int == cdist(world@, i as int)(b as int),
            },
        decreases n - j,
    {
        proof {
            lemma_world_view_index(*world, j as int);
            assert(world@.creatures[j as int].wf());
        }
        let cj = &world.creatures[j];
        let d = dist2_i64(cx, cy, cj.x, cj.y);
        let is_ally = world.creatures[i].is_ally(j);
        let elig = cj.alive && j != i && !(cj.x == cx && cj.y == cy) && !is_ally && d <= cv2;
        proof {
            assert(elig == rival_eligible(world@, i as int, j as int));
        }
        if elig {
            let take = match best {
                None => true,
                Some(_) => d < best_d,
            };
            if take {
                best = Some(j);
                best_d = d;
            }
        }
        j += 1;
    }
    best
}

/// The nearest food item visible to creature `i`.
fn nearest_food(world: &World, i: usize) -> (r: Option<usize>)
    requires
        world@.wf(),
        i < world.creatures.len(),
    ensures
        match r {
            None => chosen_food(world@, i as int) is None,
            Some(b) => chosen_food(world@, i as int) == Some(b as int),
        },
{
    proof {
        lemma_world_view_index(*world, i as int);
        assert(world@.creatures[i as int].wf());
    }
    let m = world.foods.len();
    let cx = world.creatures[i].x;
    let cy = world.creatures[i].y;
    let fv2 = square_nn(world.creatures[i].food_vision_radius);
    let mut best: Option<usize> = None;
    let mut best_d: i64 = 0;
    let mut k: usize = 0;
    while k < m
        invariant
            k <= m,
            i < world.creatures@.len(),
            m == world.foods@.len(),
            world@.wf(),
            cx as int == world@.creatures[i as int].x,
            cy as int == world@.creatures[i as int].y,
            fv2 as int == world@.creatures[i as int].food_vision_radius
                * world@.creatures[i as int].food_vision_radius,
            match best {
                None => first_min(k as int, food_elig(world@, i as int), fdist(world@, i as int))
                    is None,
                Some(b) => first_min(k as int, food_elig(world@, i as int), fdist(world@, i as int))
                    == Some(b as int) && b < m && best_d as int == fdist(world@, i as int)(
                b as int),
            },
        decreases m - k,
    {
        proof {
            lemma_world_food_index(*world, k as int);
            assert(world@.foods[k as int].wf());
        }
        let fk = &world.foods[k];
        let d = dist2_i64(cx, cy, fk.x, fk.y);
        let elig = d <= fv2;
        proof {
            assert(elig == food_eligible(world@, i as int, k as int));
        }
        if elig {
            let take = match best {
                None => true,
                Some(_) => d < best_d,
            };
            if take {
                best = Some(k);
                best_d = d;
            }
        }
        k += 1;
    }
    best
}

/// Run the decision procedure for creature `i`, exact against [`decide`].
pub fn evaluate(world: &World, i: usize) -> (d: Decision)
    requires
        world@.wf(),
        i < world.creatures.len(),
    ensures
        d@ == decide(world@, i as int),
        d@.wf(),
{
    proof {
        lemma_decide_wf(world@, i as int);
        lemma_world_view_index(*world, i as int);
    }
    if world.creatures[i].is_in_love {
        match nearest_mate(world, i) {
            Some(j) => {
                proof {
                    lemma_first_min(
                        world@.creatures.len() as int,
                        mate_elig(world@, i as int),
                        cdist(world@, i as int),
                    );
                    lemma_world_view_index(*world, j as int);
                }
                Decision {
                    state: CreatureState::InLove,
                    target: Some((world.creatures[j].x, world.creatures[j].y)),
                    factor: world.creatures[i].love_accel_factor,
                }
            },
            None => Decision {
                state: CreatureState::InLove,
                target: None,
                factor: world.creatures[i].love_accel_factor,
            },
        }
    } else {
        match nearest_rival(world, i) {
            Some(j) => {
                proof {
                    lemma_first_min(
                        world@.creatures.len() as int,
                        rival_elig(world@, i as int),
                        cdist(world@, i as int),
                    );
                    lemma_world_view_index(*world, j as int);
                }
                let cjx = world.creatures[j].x;
                let cjy = world.creatures[j].y;
                if world.creatures[i].aggressiveness > world.creatures[j].aggressiveness {
                    Decision {
                        state: CreatureState::Attacking,
                        target: Some((cjx, cjy)),
                        factor: world.creatures[i].attack_accel_factor,
                    }
                } else {
                    Decision {
                        state: CreatureState::Fleeing,
                        target: Some((cjx, cjy)),
                        factor: -world.creatures[i].flee_accel_factor,
                    }
                }
            },
            None => match nearest_food(world, i) {
                Some(k) => {
                    proof {
                        lemma_first_min(
                            world@.foods.len() as int,
                            food_elig(world@, i as int),
                            fdist(world@, i as int),
                        );
                        lemma_world_food_index(*world, k as int);
                    }
                    Decision {
                        state: CreatureState::SeekingFood,
                        target: Some((world.foods[k].x, world.foods[k].y)),
                        factor: world.creatures[i].eat_accel_factor,
                    }
                },
                None => Decision {
                    state: CreatureState::Neutral,
                    target: Some((world.creatures[i].x, world.creatures[i].y)),
                    factor: world.creatures[i].neutral_accel_factor,
                },
            },
        }
    }
}


/// A creature after one decision is applied: when a target exists the
/// acceleration becomes the unit direction toward it rescaled by the
/// factor (a zero vector for a zero direction), otherwise the previous
/// drive is kept; the state is recorded; and afterwards a velocity above
/// `upper_speed` is rescaled by `upper_speed` over the ceiling of its
/// magnitude, which keeps its direction and brings the speed at or below
/// the cap ([`lemma_velocity_cap`]).
pub open spec fn steered_model(c: CreatureModel, d: DecisionModel) -> CreatureModel {
    let c1 = match d.target {
        Some((tx, ty)) => {
            let dd = dist2(c.x, c.y, tx, ty);
            if dd == 0 {
                CreatureModel { ax: 0, ay: 0, state: d.state, ..c }
            } else {
                let dist = sqrt_floor(dd);
                CreatureModel {
                    ax: scaled(tx - c.x, d.factor, dist),
                    ay: scaled(ty - c.y, d.factor, dist),
                    state: d.state,
                    ..c
                }
            }
        },
        None => CreatureModel { state: d.state, ..c },
    };
    let v2 = c1.vx * c1.vx + c1.vy * c1.vy;
    if v2 > c1.upper_speed * c1.upper_speed {
        let sp = sqrt_ceil(v2);
        CreatureModel {
            vx: scaled(c1.vx, c1.upper_speed, sp),
            vy: scaled(c1.vy, c1.upper_speed, sp),
            ..c1
        }
    } else {
        c1
    }
}

/// A speed within the cap: the squared velocity magnitude is at most the
/// squared `upper_speed`.
pub open spec fn capped_speed(c: CreatureModel) -> bool {
    c.vx * c.vx + c.vy * c.vy <= c.upper_speed * c.upper_speed
}

/// The velocity clamp: after a decision is applied the squared speed
/// never exceeds `upper_speed` squared, and a velocity already within the
/// cap is kept unchanged.
pub proof fn lemma_velocity_cap(c: CreatureModel, d: DecisionModel)
    requires
        c.wf(),
    ensures
        ({
            let c2 = steered_model(c, d);
            &&& c2.vx * c2.vx + c2.vy * c2.vy <= c.upper_speed * c.upper_speed
            &&& c.vx * c.vx + c.vy * c.vy <= c.upper_speed * c.upper_speed ==> c2.vx == c.vx
                && c2.vy == c.vy
        }),
{
    let v2 = c.vx * c.vx + c.vy * c.vy;
    let u = c.upper_speed;
    if v2 > u * u {
        assert(v2 >= 1) by (nonlinear_arith)
            requires
                v2 > u * u,
        ;
        lemma_sqrt_ceil_bound(v2);
        let sp = sqrt_ceil(v2);
        assert(sp >= 1) by (nonlinear_arith)
            requires
                sp >= 0,
                v2 <= sp * sp,
                v2 >= 1,
        ;
        lemma_scaled_cap(c.vx, c.vy, u, sp);
    }
}

/// Write a decision into a creature, exact against [`steered_model`].
pub fn apply_decision(c: &mut Creature, d: Decision)
    requires
        old(c)@.wf(),
        d@.wf(),
    ensures
        final(c)@ == steered_model(old(c)@, d@),
        final(c)@.wf(),
        final(c)@.vx * final(c)@.vx + final(c)@.vy * final(c)@.vy <= final(c)@.upper_speed
            * final(c)@.upper_speed,
{
    proof {
        lemma_velocity_cap(old(c)@, d@);
    }
    match d.target {
        Some((tx, ty)) => {
            let dd = dist2_i64(c.x, c.y, tx, ty);
            if dd == 0 {
                c.ax = 0;
                c.ay = 0;
            } else {
                let du = isqrt(dd as u64);
                proof {
                    lemma_sqrt_floor_bracket(dd as int);
                    assert((du as int) < 3_000_000_000) by (nonlinear_arith)
                        requires
                            (du as int) * (du as int) <= 8_000_000_000_000_000_000,
                            0 <= du as int,
                    ;
                    lemma_sqrt_floor_component(tx - c.x as int, ty - c.y as int);
                    lemma_sqrt_floor_component(ty - c.y as int, tx - c.x as int);
                }
                let dist = du as i64;
                let dx = tx - c.x;
                let dy = ty - c.y;
                c.ax = scale_dir(dx, d.factor, dist);
                c.ay = scale_dir(dy, d.factor, dist);
            }
            c.state = d.state;
        },
        None => {
            c.state = d.state;
        },
    }
    let v2 = dist2_i64(0, 0, c.vx, c.vy);
    let up2 = square_nn(c.upper_speed);
    if v2 > up2 {
        proof {
            assert((c.upper_speed as int) * (c.upper_speed as int) >= 0) by (nonlinear_arith);
        }
        let su = isqrt_ceil(v2 as u64);
        proof {
            lemma_sqrt_floor_bracket(v2 as int);
            lemma_sqrt_ceil_bound(v2 as int);
            assert(su as int >= 1) by (nonlinear_arith)
                requires
                    su as int >= 0,
                    (v2 as int) <= (su as int) * (su as int),
                    v2 as int >= 1,
            ;
            assert(sqrt_floor(v2 as int) < 3_000_000_000) by (nonlinear_arith)
                requires
                    sqrt_floor(v2 as int) * sqrt_floor(v2 as int)
                        <= 8_000_000_000_000_000_000,
                    0 <= sqrt_floor(v2 as int),
            ;
            lemma_sqrt_floor_component(c.vx as int, c.vy as int);
            lemma_sqrt_floor_component(c.vy as int, c.vx as int);
        }
        let sp = su as i64;
        let nvx = scale_dir(c.vx, c.upper_speed, sp);
        let nvy = scale_dir(c.vy, c.upper_speed, sp);
        c.vx = nvx;
        c.vy = nvy;
    }
    proof {
        assert(final(c)@ =~= steered_model(old(c)@, d@));
    }
}

/// Run the state evaluator over the whole arena: every living creature
/// gets the state, acceleration and velocity cap of its decision, judged
/// against the tick's initial state; despawned slots and food are
/// untouched.
pub fn tick_behavior(world: &mut World)
    requires
        old(world)@.wf(),
    ensures
        final(world)@.creatures.len() == old(world)@.creatures.len(),
        forall|i: int|
            0 <= i < old(world)@.creatures.len() ==> #[trigger] final(world)@.creatures[i] == (
            if old(world)@.creatures[i].alive {
                steered_model(old(world)@.creatures[i], decide(old(world)@, i))
            } else {
                old(world)@.creatures[i]
            }),
        forall|i: int|
            0 <= i < old(world)@.creatures.len() && old(world)@.creatures[i].alive
                ==> capped_speed(#[trigger] final(world)@.creatures[i]),
        final(world)@.foods == old(world)@.foods,
        final(world)@.wf(),
{
    let n = world.creatures.len();
    let mut ds: Vec<Decision> = Vec::new();
    let mut i: usize = 0;
    while i < n
        invariant
            i <= n,
            n == world.creatures@.len(),
            *world == *old(world),
            world@.wf(),
            ds@.len() == i,
            forall|j: int|
                0 <= j < i ==> (#[trigger] ds@[j])@ == decide(old(world)@, j) && ds@[j]@.wf(),
        decreases n - i,
    {
        let d = evaluate(world, i);
        ds.push(d);
        i += 1;
    }
    let mut k: usize = 0;
    while k < n
        invariant
            k <= n,
            n == world.creatures@.len(),
            world@.creatures.len() == old(world)@.creatures.len(),
            world@.wf(),
            ds@.len() == n,
            forall|j: int|
                0 <= j < n ==> (#[trigger] ds@[j])@ == decide(old(world)@, j) && ds@[j]@.wf(),
            forall|j: int|
                0 <= j < k ==> #[trigger] world@.creatures[j] == (
                if old(world)@.creatures[j].alive {
                    steered_model(old(world)@.creatures[j], decide(old(world)@, j))
                } else {
                    old(world)@.creatures[j]
                }),
            forall|j: int|
                k <= j < n ==> #[trigger] world@.creatures[j] == old(world)@.creatures[j],
            world@.foods == old(world)@.foods,
        decreases n - k,
    {
        if world.creatures[k].alive {
            let ghost prev = *world;
            proof {
                lemma_world_view_index(prev, k as int);
            }
            let d = ds[k];
            let c = &mut world.creatures[k];
            apply_decision(c, d);
            proof {
                assert forall|j: int| 0 <= j < n implies #[trigger] world@.creatures[j] == (
                if j == k {
                    steered_model(prev@.creatures[j], decide(old(world)@, j))
                } else {
                    prev@.creatures[j]
                }) by {
                    lemma_world_view_index(*world, j);
                    lemma_world_view_index(prev, j);
                }
                assert(world@.foods =~= prev@.foods);
            }
        }
        k += 1;
    }
    proof {
        assert forall|i: int|
            0 <= i < old(world)@.creatures.len() && old(world)@.creatures[i].alive
                implies capped_speed(#[trigger] world@.creatures[i]) by {
            lemma_velocity_cap(old(world)@.creatures[i], decide(old(world)@, i));
        }
    }
}

/// State priority: a mate-ready creature always shows `InLove`, never
/// `SeekingFood`, `Attacking` or `Fleeing`, even when rivals and food are
/// in range of their visions.
pub proof fn lemma_state_priority(w: WorldModel, i: int)
    requires
        w.wf(),
        0 <= i < w.creatures.len(),
        w.creatures[i].is_in_love,
    ensures
        decide(w, i).state == CreatureState::InLove,
{
}

/// Ally exclusion: a creature listed as an ally is never the chosen
/// rival of an `Attacking` or `Fleeing` decision, however near it is; and
/// a chosen rival is always a living, visible, distinct non-ally of
/// minimal distance.
pub proof fn lemma_ally_exclusion(w: WorldModel, i: int)
    requires
        w.wf(),
        0 <= i < w.creatures.len(),
    ensures
        match chosen_rival(w, i) {
            Some(j) => rival_eligible(w, i, j) && !w.creatures[i].allies.contains(j) && forall|
                k: int,
            |
                rival_eligible(w, i, k) ==> #[trigger] cdist(w, i)(j) <= cdist(w, i)(k),
            None => forall|k: int| 0 <= k < w.creatures.len() ==> !(#[trigger] rival_eligible(
                w,
                i,
                k,
            )),
        },
{
    lemma_first_min(w.creatures.len() as int, rival_elig(w, i), cdist(w, i));
    match chosen_rival(w, i) {
        Some(j) => {
            assert(rival_elig(w, i)(j));
            assert forall|k: int| rival_eligible(w, i, k) implies #[trigger] cdist(w, i)(j)
                <= cdist(w, i)(k) by {
                assert(rival_elig(w, i)(k));
            }
        },
        None => {
            assert forall|k: int| 0 <= k < w.creatures.len() implies !(
            #[trigger] rival_eligible(w, i, k)) by {
                if rival_eligible(w, i, k) {
                    assert(rival_elig(w, i)(k));
                }
            }
        },
    }
}

} // verus!
