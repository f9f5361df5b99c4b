use vstd::prelude::*;

verus! {

use crate::behavior::{decide, steered_model, tick_behavior};
use crate::collision::{all_events, resolve_collisions, sweep, CollisionEvent};
use crate::energy::{
    aged_model, consume_food, culled_model, drain_energy, drained_model, eat_fold, kept_foods,
    loved_model, remove_dead, tick_child_timers, update_love_flags,
};
use crate::interaction::{apply_events, resolve_events};
use crate::params::DT_LIMIT;
use crate::world::{integrate_motion, moved_model, World, WorldModel};

/// The state evaluator applied to the whole arena.
pub open spec fn behavior_stage(w: WorldModel) -> WorldModel {
    WorldModel {
        creatures: Seq::new(
            w.creatures.len(),
            |i: int|
                if w.creatures[i].alive {
                    steered_model(w.creatures[i], decide(w, i))
                } else {
                    w.creatures[i]
                },
        ),
        ..w
    }
}

/// The kinematic step applied to the whole arena.
pub open spec fn moved_stage(w: WorldModel, dt: int) -> WorldModel {
    WorldModel {
        creatures: Seq::new(
            w.creatures.len(),
            |i: int|
                if w.creatures[i].alive {
                    moved_model(w.creatures[i], dt)
                } else {
                    w.creatures[i]
                },
        ),
        ..w
    }
}

/// The drain applied to the whole arena.
pub open spec fn drain_stage(w: WorldModel, dt: int) -> WorldModel {
    WorldModel {
        creatures: Seq::new(
            w.creatures.len(),
            |i: int|
                if w.creatures[i].alive {
                    drained_model(w.creatures[i], dt)
                } else {
                    w.creatures[i]
                },
        ),
        ..w
    }
}

/// The child countdown applied to the whole arena.
pub open spec fn aged_stage(w: WorldModel, dt: int) -> WorldModel {
    WorldModel {
        creatures: Seq::new(
            w.creatures.len(),
            |i: int|
                if w.creatures[i].alive {
                    aged_model(w.creatures[i], dt)
                } else {
                    w.creatures[i]
                },
        ),
        ..w
    }
}

/// The eating pass applied to the whole world.
pub open spec fn eaten_stage(w: WorldModel) -> WorldModel {
    WorldModel {
        creatures: eat_fold(w, w.foods.len() as int).creatures,
        foods: kept_foods(w, w.foods.len() as int),
    }
}

/// The mate-readiness rule applied to the whole arena.
pub open spec fn loved_stage(w: WorldModel) -> WorldModel {
    WorldModel {
        creatures: Seq::new(
            w.creatures.len(),
            |i: int|
                if w.creatures[i].alive {
                    loved_model(w.creatures[i])
                } else {
                    w.creatures[i]
                },
        ),
        ..w
    }
}

/// The starvation check applied to the whole arena.
pub open spec fn culled_stage(w: WorldModel) -> WorldModel {
    WorldModel {
        creatures: Seq::new(w.creatures.len(), |i: int| culled_model(w.creatures[i])),
        ..w
    }
}

/// One whole tick, stage by stage in the fixed order: the state evaluator
/// writes accelerations, the integrator moves everyone, the collision
/// resolver applies repulsion and emits this tick's events, the energy
/// economy drains, ages, feeds, updates mate-readiness and despawns the
/// starved, and the reproduction/combat resolver consumes the events.
pub open spec fn tick_model(w: WorldModel, dt: int) -> WorldModel {
    let w1 = behavior_stage(w);
    let w2 = moved_stage(w1, dt);
    let evs = all_events(w2);
    let w3 = sweep(w2, w2.creatures.len() as int);
    let w4 = drain_stage(w3, dt);
    let w5 = aged_stage(w4, dt);
    let w6 = eaten_stage(w5);
    let w7 = loved_stage(w6);
    let w8 = culled_stage(w7);
    apply_events(w8, evs)
}

/// Run one whole tick of the simulation, exact against [`tick_model`].
pub fn run_tick(world: &mut World, dt: i64)
    requires
        old(world)@.wf(),
        0 <= dt <= DT_LIMIT,
    ensures
        final(world)@ == tick_model(old(world)@, dt as int),
        final(world)@.wf(),
{
    let ghost w0 = world@;
    tick_behavior(world);
    proof {
        assert(world@ =~= behavior_stage(w0));
    }
    let ghost w1 = behavior_stage(w0);
    integrate_motion(world, dt);
    proof {
        assert(world@ =~= moved_stage(w1, dt as int));
    }
    let ghost w2 = moved_stage(w1, dt as int);
    let evs = resolve_collisions(world);
    let ghost w3 = sweep(w2, w2.creatures.len() as int);
    drain_energy(world, dt);
    proof {
        assert(world@ =~= drain_stage(w3, dt as int));
    }
    let ghost w4 = drain_stage(w3, dt as int);
    tick_child_timers(world, dt);
    proof {
        assert(world@ =~= aged_stage(w4, dt as int));
    }
    let ghost w5 = aged_stage(w4, dt as int);
    consume_food(world);
    proof {
        assert(world@ =~= eaten_stage(w5));
    }
    let ghost w6 = eaten_stage(w5);
    update_love_flags(world);
    proof {
        assert(world@ =~= loved_stage(w6));
    }
    let ghost w7 = loved_stage(w6);
    remove_dead(world);
    proof {
        assert(world@ =~= culled_stage(w7));
    }
    resolve_events(world, &evs);
}

} // verus!
