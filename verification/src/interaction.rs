use vstd::prelude::*;

verus! {

use crate::collision::CollisionEvent;
use crate::creature::{lemma_offspring_wf, offspring, offspring_model, Creature, CreatureModel};
use crate::params::RATE_DENOM;
use crate::world::{lemma_world_view_index, World, WorldModel};

/// A parent right after mating: it hands the offspring the fraction
/// `energy_rate_given_to_baby` of its own energy, records the other parent
/// and the offspring as allies, and is no longer mate-ready until the
/// energy-ratio rule grants it again.
pub open spec fn parent_after(c: CreatureModel, other: int, baby: int) -> CreatureModel {
    CreatureModel {
        energy: c.energy - (c.energy_rate_given_to_baby * c.energy) / (RATE_DENOM as int),
        is_in_love: false,
        allies: c.allies.insert(other).insert(baby),
        ..c
    }
}

/// One side of a combat exchange, judged on pre-damage values: it takes
/// the opponent's attack power; a side brought to zero or below despawns
/// with its energy clamped at zero, and a survivor whose opponent died is
/// refilled to its own maximum.
pub open spec fn combatant_after(c: CreatureModel, damage: int, opponent_dies: bool) -> CreatureModel {
    let dies = c.energy - damage <= 0;
    CreatureModel {
        energy: if dies {
            0
        } else if opponent_dies {
            c.max_energy
        } else {
            c.energy - damage
        },
        alive: !dies,
        ..c
    }
}

/// The world after one collision event is consumed.  A stale event (an
/// endpoint out of range, equal endpoints, or a side already despawned
/// this tick) is skipped silently.  A mutually mate-ready pair spawns a
/// trait-averaged offspring; a pair of mutual allies ignores the event;
/// any other pair fights with simultaneous mutual damage.
pub open spec fn apply_event(w: WorldModel, e: CollisionEvent) -> WorldModel {
    let a = e.a as int;
    let b = e.b as int;
    let n = w.creatures.len() as int;
    if !(0 <= a < n && 0 <= b < n && a != b && w.creatures[a].alive && w.creatures[b].alive) {
        w
    } else {
        let ca = w.creatures[a];
        let cb = w.creatures[b];
        if ca.is_in_love && cb.is_in_love {
            WorldModel {
                creatures: w.creatures.update(a, parent_after(ca, b, n)).update(
                    b,
                    parent_after(cb, a, n),
                ).push(offspring_model(ca, cb, a, b)),
                ..w
            }
        } else if ca.allies.contains(b) && cb.allies.contains(a) {
            w
        } else {
            let a_dies = ca.energy - cb.attack_power <= 0;
            let b_dies = cb.energy - ca.attack_power <= 0;
            WorldModel {
                creatures: w.creatures.update(a, combatant_after(ca, cb.attack_power, b_dies))
                    .update(b, combatant_after(cb, ca.attack_power, a_dies)),
                ..w
            }
        }
    }
}

/// The world after a whole list of collision events is consumed in order.
pub open spec fn apply_events(w: WorldModel, evs: Seq<CollisionEvent>) -> WorldModel
    decreases evs.len(),
{
    if evs.len() == 0 {
        w
    } else {
        apply_event(apply_events(w, evs.drop_last()), evs.last())
    }
}

/// Consuming one event preserves well-formedness.
pub proof fn lemma_apply_event_wf(w: WorldModel, e: CollisionEvent)
    requires
        w.wf(),
    ensures
        apply_event(w, e).wf(),
        apply_event(w, e).foods == w.foods,
        apply_event(w, e).creatures.len() >= w.creatures.len(),
{
    let a = e.a as int;
    let b = e.b as int;
    let n = w.creatures.len() as int;
    let w2 = apply_event(w, e);
    if 0 <= a < n && 0 <= b < n && a != b && w.creatures[a].alive && w.creatures[b].alive {
        let ca = w.creatures[a];
        let cb = w.creatures[b];
        if ca.is_in_love && cb.is_in_love {
            lemma_offspring_wf(ca, cb, a, b);
            lemma_parent_energy(ca);
            lemma_parent_energy(cb);
            assert forall|i: int| 0 <= i < w2.creatures.len() implies (
            #[trigger] w2.creatures[i]).wf() by {
                if i < n && i != a && i != b {
                    assert(w2.creatures[i] == w.creatures[i]);
                }
            }
        } else if ca.allies.contains(b) && cb.allies.contains(a) {
        } else {
            assert forall|i: int| 0 <= i < w2.creatures.len() implies (
            #[trigger] w2.creatures[i]).wf() by {
                if i != a && i != b {
                    assert(w2.creatures[i] == w.creatures[i]);
                }
            }
        }
    }
}

/// The energy handed to the offspring is between zero and the parent's
/// whole energy, so the deduction keeps the clamp invariant.
proof fn lemma_parent_energy(c: CreatureModel)
    requires
        c.wf(),
    ensures
        0 <= (c.energy_rate_given_to_baby * c.energy) / (RATE_DENOM as int) <= c.energy,
{
    let r = c.energy_rate_given_to_baby;
    let e = c.energy;
    vstd::arithmetic::mul::lemma_mul_inequality(r, RATE_DENOM as int, e);
    vstd::arithmetic::div_mod::lemma_multiply_divide_le(r * e, RATE_DENOM as int, e);
    vstd::arithmetic::mul::lemma_mul_nonnegative(r, e);
    vstd::arithmetic::div_mod::lemma_div_pos_is_pos(r * e, RATE_DENOM as int);
}

/// Apply the mating effect to one parent, exact against [`parent_after`].
fn conceive(c: &mut Creature, other: usize, baby: usize)
    requires
        old(c)@.wf(),
    ensures
        final(c)@ == parent_after(old(c)@, other as int, baby as int),
        final(c)@.wf(),
{
    proof {
        lemma_parent_energy(c@);
        assert((c.energy_rate_given_to_baby as int) * (c.energy as int)
            <= 1_000_000_000_000_000) by (nonlinear_arith)
            requires
                0 <= (c.energy_rate_given_to_baby as int) < 1000,
                0 <= (c.energy as int) <= 1_000_000_000_000,
        ;
    }
    let ded = (((c.energy_rate_given_to_baby as u64) * (c.energy as u64)) / 1000) as i64;
    c.energy = c.energy - ded;
    c.add_ally(other);
    c.add_ally(baby);
    c.is_in_love = false;
    proof {
        assert(final(c)@ =~= parent_after(old(c)@, other as int, baby as int));
    }
}

/// Consume this tick's collision events in order, exact against
/// [`apply_events`]: mutually mate-ready pairs reproduce, mutual allies
/// ignore each other, every other pair exchanges simultaneous damage, and
/// stale events are skipped silently.
pub fn resolve_events(world: &mut World, events: &Vec<CollisionEvent>)
    requires
        old(world)@.wf(),
    ensures
        final(world)@ == apply_events(old(world)@, events@),
        final(world)@.wf(),
{
    let ghost w0 = old(world)@;
    let m = events.len();
    let mut k: usize = 0;
    while k < m
        invariant
            k <= m,
            m == events@.len(),
            w0 == old(world)@,
            w0.wf(),
            world@ == apply_events(w0, events@.take(k as int)),
            world@.wf(),
        decreases m - k,
    {
        let e = events[k];
        let ghost prev = world@;
        let n = world.creatures.len();
        if e.a < n && e.b < n && e.a != e.b && world.creatures[e.a].alive
            && world.creatures[e.b].alive {
            proof {
                lemma_world_view_index(*world, e.a as int);
                lemma_world_view_index(*world, e.b as int);
                assert(prev.creatures[e.a as int].wf());
                assert(prev.creatures[e.b as int].wf());
            }
            if world.creatures[e.a].is_in_love && world.creatures[e.b].is_in_love {
                let baby = offspring(&world.creatures[e.a], &world.creatures[e.b], e.a, e.b);
                world.creatures.push(baby);
                let ca = &mut world.creatures[e.a];
                conceive(ca, e.b, n);
                let cb = &mut world.creatures[e.b];
                conceive(cb, e.a, n);
                proof {
                    assert(world@ =~= apply_event(prev, e)) by {
                        assert forall|i: int|
                            0 <= i < world@.creatures.len() implies world@.creatures[i]
                            == apply_event(prev, e).creatures[i] by {
                            lemma_world_view_index(*world, i);
                        }
                        assert(world@.foods =~= prev.foods);
                    }
                }
            } else {
                let mutual = world.creatures[e.a].is_ally(e.b) && world.creatures[e.b].is_ally(
                    e.a,
                );
                if !mutual {
                    let da = world.creatures[e.b].attack_power;
                    let db = world.creatures[e.a].attack_power;
                    let a_dies = world.creatures[e.a].energy <= da;
                    let b_dies = world.creatures[e.b].energy <= db;
                    let ca = &mut world.creatures[e.a];
                    ca.energy = if a_dies {
                        0
                    } else if b_dies {
                        ca.max_energy
                    } else {
                        ca.energy - da
                    };
                    if a_dies {
                        ca.alive = false;
                    }
                    let cb = &mut world.creatures[e.b];
                    cb.energy = if b_dies {
                        0
                    } else if a_dies {
                        cb.max_energy
                    } else {
                        cb.energy - db
                    };
                    if b_dies {
                        cb.alive = false;
                    }
                    proof {
                        assert(world@ =~= apply_event(prev, e)) by {
                            assert forall|i: int|
                                0 <= i < world@.creatures.len() implies world@.creatures[i]
                                == apply_event(prev, e).creatures[i] by {
                                lemma_world_view_index(*world, i);
                                if i == e.a as int || i == e.b as int {
                                    assert(world@.creatures[i] =~= apply_event(
                                        prev,
                                        e,
                                    ).creatures[i]);
                                }
                            }
                            assert(world@.foods =~= prev.foods);
                        }
                    }
                } else {
                    proof {
                        assert(apply_event(prev, e) == prev);
                    }
                }
            }
        } else {
            proof {
                assert(apply_event(prev, e) == prev);
            }
        }
        proof {
            lemma_apply_event_wf(prev, e);
            assert(events@.take(k as int + 1).drop_last() =~= events@.take(k as int));
            assert(events@.take(k as int + 1).last() == events@[k as int]);
        }
        k += 1;
    }
    proof {
        assert(events@.take(m as int) =~= events@);
    }
}

} // verus!
