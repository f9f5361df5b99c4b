use vstd::prelude::*;

verus! {

use crate::creature::{Creature, CreatureModel};
use crate::math::{dist2, dist2_i64, isqrt, lemma_sqrt_floor_bracket, sqrt_floor, square_nn};
use crate::params::{DT_LIMIT, PASSIVE_ENERGY_LOSS, RATE_DENOM};
use crate::search::{first_min, lemma_first_min};
use crate::world::{
    lemma_world_food_index, lemma_world_view_index, Food, FoodModel, World, WorldModel,
};

// --- Drain ---------------------------------------------------------------

/// The energy a creature loses in one tick: its speed (the floor of the
/// velocity magnitude) plus the flat passive cost, per second, scaled by
/// the elapsed milliseconds.
pub open spec fn drain_amount(c: CreatureModel, dt: int) -> int {
    (sqrt_floor(c.vx * c.vx + c.vy * c.vy) + PASSIVE_ENERGY_LOSS) * dt / 1000
}

/// A creature after the drain: energy reduced and clamped at zero below.
pub open spec fn drained_model(c: CreatureModel, dt: int) -> CreatureModel {
    let e = c.energy - drain_amount(c, dt);
    CreatureModel {
        energy: if e < 0 {
            0
        } else {
            e
        },
        ..c
    }
}

/// Drain one creature, exact against [`drained_model`].
fn drain_creature(c: &mut Creature, dt: i64)
    requires
        old(c)@.wf(),
        0 <= dt <= DT_LIMIT,
    ensures
        final(c)@ == drained_model(old(c)@, dt as int),
        final(c)@.wf(),
{
    let v2 = dist2_i64(0, 0, c.vx, c.vy);
    let su = isqrt(v2 as u64);
    proof {
        lemma_sqrt_floor_bracket(v2 as int);
        assert(su as int <= 3_000_000_000) by (nonlinear_arith)
            requires
                0 <= su as int,
                (su as int) * (su as int) <= 8_000_000_000_000_000_000,
        ;
        assert(((su as int) + PASSIVE_ENERGY_LOSS) * (dt as int) <= 4_000_000_000_000_000_000)
            by (nonlinear_arith)
            requires
                0 <= su as int <= 3_000_000_000,
                0 <= dt as int <= DT_LIMIT as int,
        ;
    }
    let loss: u64 = (su + (PASSIVE_ENERGY_LOSS as u64)) * (dt as u64) / 1000;
    let loss_i = loss as i64;
    c.energy = if c.energy > loss_i {
        c.energy - loss_i
    } else {
        0
    };
    proof {
        assert(final(c)@ =~= drained_model(old(c)@, dt as int));
    }
}

/// Drain every living creature; despawned slots and food are untouched.
pub fn drain_energy(world: &mut World, dt: i64)
    requires
        old(world)@.wf(),
        0 <= dt <= DT_LIMIT,
    ensures
        final(world)@.creatures.len() == old(world)@.creatures.len(),
        forall|i: int|
            0 <= i < old(world)@.creatures.len() ==> #[trigger] final(world)@.creatures[i] == (
            if old(world)@.creatures[i].alive {
                drained_model(old(world)@.creatures[i], dt as int)
            } else {
                old(world)@.creatures[i]
            }),
        final(world)@.foods == old(world)@.foods,
        final(world)@.wf(),
{
    let n = world.creatures.len();
    let mut i: usize = 0;
    while i < n
        invariant
            i <= n,
            n == world.creatures@.len(),
            world@.creatures.len() == old(world)@.creatures.len(),
            0 <= dt <= DT_LIMIT,
            forall|j: int|
                0 <= j < i ==> #[trigger] world@.creatures[j] == (
                if old(world)@.creatures[j].alive {
                    drained_model(old(world)@.creatures[j], dt as int)
                } else {
                    old(world)@.creatures[j]
                }),
            forall|j: int|
                i <= j < n ==> #[trigger] world@.creatures[j] == old(world)@.creatures[j],
            world@.foods == old(world)@.foods,
            world@.wf(),
        decreases n - i,
    {
        if world.creatures[i].alive {
            let ghost prev = *world;
            proof {
                lemma_world_view_index(prev, i as int);
            }
            let c = &mut world.creatures[i];
            drain_creature(c, dt);
            proof {
                assert forall|j: int| 0 <= j < n implies #[trigger] world@.creatures[j] == (
                if j == i {
                    drained_model(prev@.creatures[j], dt as int)
                } else {
                    prev@.creatures[j]
                }) by {
                    lemma_world_view_index(*world, j);
                    lemma_world_view_index(prev, j);
                }
                assert(world@.foods =~= prev@.foods);
            }
        }
        i += 1;
    }
}

// --- Child countdown -----------------------------------------------------

/// A creature after its one-shot child countdown advanced by `dt`.
pub open spec fn aged_model(c: CreatureModel, dt: int) -> CreatureModel {
    let t = c.child_time_left - dt;
    CreatureModel {
        child_time_left: if t < 0 {
            0
        } else {
            t
        },
        ..c
    }
}

/// Advance every living creature's child countdown; on reaching zero the
/// creature stops being a child and becomes eligible for courtship.
pub fn tick_child_timers(world: &mut World, dt: i64)
    requires
        old(world)@.wf(),
        0 <= dt <= DT_LIMIT,
    ensures
        final(world)@.creatures.len() == old(world)@.creatures.len(),
        forall|i: int|
            0 <= i < old(world)@.creatures.len() ==> #[trigger] final(world)@.creatures[i] == (
            if old(world)@.creatures[i].alive {
                aged_model(old(world)@.creatures[i], dt as int)
            } else {
                old(world)@.creatures[i]
            }),
        final(world)@.foods == old(world)@.foods,
        final(world)@.wf(),
{
    let n = world.creatures.len();
    let mut i: usize = 0;
    while i < n
        invariant
            i <= n,
            n == world.creatures@.len(),
            world@.creatures.len() == old(world)@.creatures.len(),
            0 <= dt <= DT_LIMIT,
            forall|j: int|
                0 <= j < i ==> #[trigger] world@.creatures[j] == (
                if old(world)@.creatures[j].alive {
                    aged_model(old(world)@.creatures[j], dt as int)
                } else {
                    old(world)@.creatures[j]
                }),
            forall|j: int|
                i <= j < n ==> #[trigger] world@.creatures[j] == old(world)@.creatures[j],
            world@.foods == old(world)@.foods,
            world@.wf(),
        decreases n - i,
    {
        if world.creatures[i].alive {
            let ghost prev = *world;
            proof {
                lemma_world_view_index(prev, i as int);
            }
            let c = &mut world.creatures[i];
            c.child_time_left = if c.child_time_left > dt {
                c.child_time_left - dt
            } else {
                0
            };
            proof {
                assert(world.creatures@[i as int]@ =~= aged_model(prev@.creatures[i as int], dt as int));
                assert forall|j: int| 0 <= j < n implies #[trigger] world@.creatures[j] == (
                if j == i {
                    aged_model(prev@.creatures[j], dt as int)
                } else {
                    prev@.creatures[j]
                }) by {
                    lemma_world_view_index(*world, j);
                    lemma_world_view_index(prev, j);
                }
                assert(world@.foods =~= prev@.foods);
            }
        }
        i += 1;
    }
}

// --- Mate-readiness ------------------------------------------------------

/// A creature after the mate-readiness rule: in love exactly when it is
/// no child and its energy ratio strictly exceeds its threshold.
pub open spec fn loved_model(c: CreatureModel) -> CreatureModel {
    CreatureModel { is_in_love: c.wants_love(), ..c }
}

/// Recompute every living creature's mate-readiness flag.
pub fn update_love_flags(world: &mut World)
    requires
        old(world)@.wf(),
    ensures
        final(world)@.creatures.len() == old(world)@.creatures.len(),
        forall|i: int|
            0 <= i < old(world)@.creatures.len() ==> #[trigger] final(world)@.creatures[i] == (
            if old(world)@.creatures[i].alive {
                loved_model(old(world)@.creatures[i])
            } else {
                old(world)@.creatures[i]
            }),
        final(world)@.foods == old(world)@.foods,
        final(world)@.wf(),
{
    let n = world.creatures.len();
    let mut i: usize = 0;
    while i < n
        invariant
            i <= n,
            n == world.creatures@.len(),
            world@.creatures.len() == old(world)@.creatures.len(),
            forall|j: int|
                0 <= j < i ==> #[trigger] world@.creatures[j] == (
                if old(world)@.creatures[j].alive {
                    loved_model(old(world)@.creatures[j])
                } else {
                    old(world)@.creatures[j]
                }),
            forall|j: int|
                i <= j < n ==> #[trigger] world@.creatures[j] == old(world)@.creatures[j],
            world@.foods == old(world)@.foods,
            world@.wf(),
        decreases n - i,
    {
        if world.creatures[i].alive {
            let ghost prev = *world;
            proof {
                lemma_world_view_index(prev, i as int);
                assert(prev@.creatures[i as int].wf());
                let ghost pc = prev.creatures@[i as int];
                assert((pc.want_to_love_rate as int) * (pc.max_energy as int)
                    <= 1_000_000_000_000_000) by (nonlinear_arith)
                    requires
                        0 <= (pc.want_to_love_rate as int) <= RATE_DENOM as int,
                        0 <= (pc.max_energy as int) <= 1_000_000_000_000,
                ;
            }
            let c = &mut world.creatures[i];
            let not_child = c.child_time_left == 0;
            let ratio_ok = c.energy * RATE_DENOM > c.want_to_love_rate * c.max_energy;
            c.is_in_love = not_child && ratio_ok;
            proof {
                assert(world.creatures@[i as int]@ =~= loved_model(prev@.creatures[i as int]));
                assert forall|j: int| 0 <= j < n implies #[trigger] world@.creatures[j] == (
                if j == i {
                    loved_model(prev@.creatures[j])
                } else {
                    prev@.creatures[j]
                }) by {
                    lemma_world_view_index(*world, j);
                    lemma_world_view_index(prev, j);
                }
                assert(world@.foods =~= prev@.foods);
            }
        }
        i += 1;
    }
}

// --- Death ---------------------------------------------------------------

/// A creature after the starvation check: despawned when its energy has
/// reached zero.
pub open spec fn culled_model(c: CreatureModel) -> CreatureModel {
    CreatureModel { alive: c.alive && c.energy > 0, ..c }
}

/// Despawn every creature whose energy is exhausted.  Despawning is
/// idempotent: a slot already despawned stays despawned.
pub fn remove_dead(world: &mut World)
    requires
        old(world)@.wf(),
    ensures
        final(world)@.creatures.len() == old(world)@.creatures.len(),
        forall|i: int|
            0 <= i < old(world)@.creatures.len() ==> #[trigger] final(world)@.creatures[i]
                == culled_model(old(world)@.creatures[i]),
        final(world)@.foods == old(world)@.foods,
        final(world)@.wf(),
{
    let n = world.creatures.len();
    let mut i: usize = 0;
    while i < n
        invariant
            i <= n,
            n == world.creatures@.len(),
            world@.creatures.len() == old(world)@.creatures.len(),
            forall|j: int|
                0 <= j < i ==> #[trigger] world@.creatures[j] == culled_model(
                    old(world)@.creatures[j],
                ),
            forall|j: int|
                i <= j < n ==> #[trigger] world@.creatures[j] == old(world)@.creatures[j],
            world@.foods == old(world)@.foods,
            world@.wf(),
        decreases n - i,
    {
        let ghost prev = *world;
        proof {
            lemma_world_view_index(prev, i as int);
        }
        let c = &mut world.creatures[i];
        let gone = c.energy == 0;
        if gone {
            c.alive = false;
        }
        proof {
            assert(world.creatures@[i as int]@ =~= culled_model(prev@.creatures[i as int]));
            assert forall|j: int| 0 <= j < n implies #[trigger] world@.creatures[j] == (
            if j == i {
                culled_model(prev@.creatures[j])
            } else {
                prev@.creatures[j]
            }) by {
                lemma_world_view_index(*world, j);
                lemma_world_view_index(prev, j);
            }
            assert(world@.foods =~= prev@.foods);
        }
        i += 1;
    }
}


// --- Eating --------------------------------------------------------------

/// A candidate to eat: any living creature, across the whole population
/// (eating is not scoped to a vision radius).
pub open spec fn alive_elig(w: WorldModel) -> spec_fn(int) -> bool {
    |j: int| 0 <= j < w.creatures.len() && w.creatures[j].alive
}

/// Squared distance from creature `j` to food item `k`.
pub open spec fn fcdist(w: WorldModel, k: int) -> spec_fn(int) -> int {
    |j: int| dist2(w.creatures[j].x, w.creatures[j].y, w.foods[k].x, w.foods[k].y)
}

/// The creature entitled to food `k`: the globally nearest living one,
/// ties resolved to the lowest index.
pub open spec fn chosen_eater(w: WorldModel, k: int) -> Option<int> {
    first_min(w.creatures.len() as int, alive_elig(w), fcdist(w, k))
}

/// Whether food `k` is consumed: its entitled creature exists and the food
/// lies within that creature's own hitbox radius.
pub open spec fn food_eaten(w: WorldModel, k: int) -> bool {
    match chosen_eater(w, k) {
        None => false,
        Some(j) => fcdist(w, k)(j) <= w.creatures[j].hitbox_radius * w.creatures[j].hitbox_radius,
    }
}

/// The world after food `k` is offered: when it is consumed, the eater
/// gains the food's energy, clamped at its own maximum; the food list
/// itself is settled separately by [`kept_foods`].
pub open spec fn eat_step(w: WorldModel, k: int) -> WorldModel {
    if !food_eaten(w, k) {
        w
    } else {
        match chosen_eater(w, k) {
            None => w,
            Some(j) => {
                let cj = w.creatures[j];
                let e2 = cj.energy + w.foods[k].energy;
                WorldModel {
                    creatures: w.creatures.update(
                        j,
                        CreatureModel {
                            energy: if e2 > cj.max_energy {
                                cj.max_energy
                            } else {
                                e2
                            },
                            ..cj
                        },
                    ),
                    ..w
                }
            },
        }
    }
}

/// The world after foods `0 .. k` were offered in order.
pub open spec fn eat_fold(w: WorldModel, k: int) -> WorldModel
    decreases k,
{
    if k <= 0 {
        w
    } else {
        eat_step(eat_fold(w, k - 1), k - 1)
    }
}

/// The foods that survive the eating pass: each consumed food is removed
/// exactly once, every other food stays, in order.
pub open spec fn kept_foods(w: WorldModel, k: int) -> Seq<FoodModel>
    decreases k,
{
    if k <= 0 {
        Seq::empty()
    } else {
        kept_foods(w, k - 1) + (if food_eaten(eat_fold(w, k - 1), k - 1) {
            Seq::empty()
        } else {
            seq![w.foods[k - 1]]
        })
    }
}

/// Every food the eating pass keeps comes from the well-formed food list.
proof fn lemma_kept_foods_wf(w: WorldModel, k: int)
    requires
        w.wf(),
        0 <= k <= w.foods.len(),
    ensures
        forall|t: int| 0 <= t < kept_foods(w, k).len() ==> (#[trigger] kept_foods(w, k)[t]).wf(),
    decreases k,
{
    if k > 0 {
        lemma_kept_foods_wf(w, k - 1);
        let prefix = kept_foods(w, k - 1);
        let kf = kept_foods(w, k);
        assert forall|t: int| 0 <= t < kf.len() implies (#[trigger] kf[t]).wf() by {
            if t < prefix.len() {
                assert(kept_foods(w, k)[t] == prefix[t]);
            } else {
                assert(kept_foods(w, k)[t] == w.foods[k - 1]);
            }
        }
    }
}

/// The living creature nearest to food `k`, across the whole population.
fn nearest_eater(world: &World, k: usize) -> (r: Option<usize>)
    requires
        world@.wf(),
        k < world.foods.len(),
    ensures
        match r {
            None => chosen_eater(world@, k as int) is None,
            Some(b) => chosen_eater(world@, k as int) == Some(b as int),
        },
{
    proof {
        lemma_world_food_index(*world, k as int);
        assert(world@.foods[k as int].wf());
    }
    let n = world.creatures.len();
    let fx = world.foods[k].x;
    let fy = world.foods[k].y;
    let mut best: Option<usize> = None;
    let mut best_d: i64 = 0;
    let mut j: usize = 0;
    while j < n
        invariant
            j <= n,
            k < world.foods@.len(),
            n == world.creatures@.len(),
            world@.wf(),
            fx as int == world@.foods[k as int].x,
            fy as int == world@.foods[k as int].y,
            match best {
                None => first_min(j as int, alive_elig(world@), fcdist(world@, k as int)) is None,
                Some(b) => first_min(j as int, alive_elig(world@), fcdist(world@, k as int))
                    == Some(b as int) && b < n && best_d as int == fcdist(world@, k as int)(
                b as int),
            },
        decreases n - j,
    {
        proof {
            lemma_world_view_index(*world, j as int);
            assert(world@.creatures[j as int].wf());
        }
        let cj = &world.creatures[j];
        let d = dist2_i64(cj.x, cj.y, fx, fy);
        let elig = cj.alive;
        proof {
            assert(elig == alive_elig(world@)(j as int));
        }
        if elig {
            let take = match best {
                None => true,
                Some(_) => d < best_d,
            };
            if take {
                best = Some(j);
                best_d = d;
            }
        }
        j += 1;
    }
    best
}

/// Offer every food item, in order, to the single living creature nearest
/// to it; a food within that creature's hitbox radius feeds it (clamped at
/// its maximum energy) and is removed exactly once.  No other creature can
/// consume it, however near it stands.
pub fn consume_food(world: &mut World)
    requires
        old(world)@.wf(),
    ensures
        final(world)@.creatures == eat_fold(
            old(world)@,
            old(world)@.foods.len() as int,
        ).creatures,
        final(world)@.foods == kept_foods(old(world)@, old(world)@.foods.len() as int),
        final(world)@.wf(),
{
    let ghost w0 = old(world)@;
    let m = world.foods.len();
    let mut kept: Vec<Food> = Vec::new();
    let mut k: usize = 0;
    while k < m
        invariant
            k <= m,
            m == world.foods@.len(),
            w0 == old(world)@,
            w0.wf(),
            world@ == eat_fold(w0, k as int),
            world@.foods == w0.foods,
            world@.creatures.len() == w0.creatures.len(),
            kept@.map_values(|f: Food| f@) == kept_foods(w0, k as int),
            world@.wf(),
        decreases m - k,
    {
        let r = nearest_eater(world, k);
        let ghost prev = world@;
        let mut ate = false;
        match r {
            Some(j) => {
                proof {
                    lemma_first_min(
                        prev.creatures.len() as int,
                        alive_elig(prev),
                        fcdist(prev, k as int),
                    );
                    lemma_world_view_index(*world, j as int);
                    lemma_world_food_index(*world, k as int);
                    assert(prev.creatures[j as int].wf());
                    assert(prev.foods[k as int].wf());
                }
                let fx = world.foods[k].x;
                let fy = world.foods[k].y;
                let fe = world.foods[k].energy;
                let d2 = dist2_i64(world.creatures[j].x, world.creatures[j].y, fx, fy);
                let r2 = square_nn(world.creatures[j].hitbox_radius);
                if d2 <= r2 {
                    let c = &mut world.creatures[j];
                    let e2 = c.energy + fe;
                    c.energy = if e2 > c.max_energy {
                        c.max_energy
                    } else {
                        e2
                    };
                    ate = true;
                    proof {
                        assert(food_eaten(prev, k as int));
                        assert(world@ =~= eat_step(prev, k as int)) by {
                            assert forall|p: int|
                                0 <= p < w0.creatures.len() implies world@.creatures[p] == eat_step(
                                prev,
                                k as int,
                            ).creatures[p] by {
                                lemma_world_view_index(*world, p);
                                if p == j {
                                    assert(world@.creatures[p] =~= eat_step(
                                        prev,
                                        k as int,
                                    ).creatures[p]);
                                }
                            }
                            assert(world@.foods =~= prev.foods);
                        }
                    }
                } else {
                    proof {
                        assert(!food_eaten(prev, k as int));
                    }
                }
            },
            None => {
                proof {
                    assert(!food_eaten(prev, k as int));
                }
            },
        }
        if !ate {
            kept.push(world.foods[k]);
        }
        proof {
            lemma_world_food_index(*world, k as int);
            assert(kept@.map_values(|f: Food| f@) =~= kept_foods(w0, k as int + 1));
        }
        k += 1;
    }
    world.foods = kept;
    proof {
        assert(final(world)@.foods =~= kept_foods(w0, m as int));
        lemma_kept_foods_wf(w0, m as int);
    }
}

/// What entitlement to food `k` means: either the entitled creature is a
/// living one that no living creature is strictly closer to the food than,
/// or nobody is entitled because no creature lives.
pub open spec fn eater_entitlement(w: WorldModel, k: int) -> bool {
    match chosen_eater(w, k) {
        Some(j) => {
            &&& 0 <= j < w.creatures.len()
            &&& w.creatures[j].alive
            &&& forall|p: int|
                0 <= p < w.creatures.len() && (#[trigger] w.creatures[p]).alive ==> fcdist(w, k)(
                    j,
                ) <= fcdist(w, k)(p)
        },
        None => forall|p: int| 0 <= p < w.creatures.len() ==> !(#[trigger] w.creatures[p]).alive,
    }
}

/// Eating exclusivity: the creature entitled to a food item is a living
/// one that no other living creature is strictly closer to; with two
/// creatures in range, only the strictly closer one can consume it.
pub proof fn lemma_eating_exclusivity(w: WorldModel, k: int)
    requires
        w.wf(),
        0 <= k,
        k < w.foods.len(),
    ensures
        eater_entitlement(w, k),
{
    lemma_first_min(w.creatures.len() as int, alive_elig(w), fcdist(w, k));
    match chosen_eater(w, k) {
        Some(j) => {
            assert(alive_elig(w)(j));
            assert forall|p: int|
                0 <= p < w.creatures.len() && (#[trigger] w.creatures[p]).alive implies fcdist(
                w,
                k,
            )(j) <= fcdist(w, k)(p) by {
                assert(alive_elig(w)(p));
            }
        },
        None => {
            assert forall|p: int| 0 <= p < w.creatures.len() implies !(
            #[trigger] w.creatures[p]).alive by {
                if w.creatures[p].alive {
                    assert(alive_elig(w)(p));
                }
            }
        },
    }
}


/// What settling one food item means.  An unconsumed food leaves the world
/// untouched: it remains, and no creature's energy changes on its account.
/// A consumed food feeds exactly its entitled creature, whose energy
/// becomes the old energy plus the yield, clamped into `[0, max_energy]`;
/// every other creature is untouched.  (The food list itself is settled by
/// [`kept_foods`], which drops a consumed item exactly once.)
pub open spec fn food_settled(w: WorldModel, k: int) -> bool {
    &&& !food_eaten(w, k) ==> eat_step(w, k) == w
    &&& food_eaten(w, k) ==> match chosen_eater(w, k) {
        Some(j) => {
            &&& 0 <= j < w.creatures.len()
            &&& eat_step(w, k).creatures[j].energy == crate::math::clamp(
                w.creatures[j].energy + w.foods[k].energy,
                0,
                w.creatures[j].max_energy,
            )
            &&& 0 <= eat_step(w, k).creatures[j].energy <= w.creatures[j].max_energy
            &&& forall|p: int|
                0 <= p < w.creatures.len() && p != j ==> #[trigger] eat_step(
                    w,
                    k,
                ).creatures[p] == w.creatures[p]
            &&& eat_step(w, k).foods == w.foods
        },
        None => false,
    }
}

/// Each food item is settled as [`food_settled`] says, at the state in
/// which the eating pass reaches it.
pub proof fn lemma_food_settlement(w: WorldModel, k: int)
    requires
        w.wf(),
        0 <= k < w.foods.len(),
    ensures
        food_settled(w, k),
{
    if food_eaten(w, k) {
        lemma_first_min(w.creatures.len() as int, alive_elig(w), fcdist(w, k));
        match chosen_eater(w, k) {
            Some(j) => {
                assert(alive_elig(w)(j));
                assert(w.creatures[j].wf());
                assert(w.foods[k].wf());
            },
            None => {},
        }
    }
}

} // verus!
