use alife::behavior::{evaluate, tick_behavior};
use alife::collision::{resolve_collisions, CollisionEvent};
use alife::creature::{Creature, CreatureState};
use alife::energy::{consume_food, drain_energy, remove_dead, tick_child_timers, update_love_flags};
use alife::interaction::resolve_events;
use alife::world::{integrate_motion, spawn_creature, spawn_food, Food, World};

/// A plain adult creature at `(x, y)`: at rest, not a child, not in love,
/// with small round traits that the tests override as needed.
fn base(x: i64, y: i64) -> Creature {
    Creature {
        alive: true,
        movable: true,
        x,
        y,
        vx: 0,
        vy: 0,
        ax: 0,
        ay: 0,
        energy: 500,
        max_energy: 1000,
        neutral_accel_factor: 3,
        eat_accel_factor: 7,
        attack_accel_factor: 11,
        flee_accel_factor: 13,
        love_accel_factor: 17,
        upper_speed: 1000,
        aggressiveness: 50,
        attack_power: 10,
        hitbox_radius: 10,
        hitbox_repulsion: 10,
        creature_vision_radius: 200,
        food_vision_radius: 300,
        love_vision_radius: 400,
        want_to_love_rate: 500,
        energy_rate_given_to_baby: 100,
        is_a_child_time: 5000,
        child_time_left: 0,
        is_in_love: false,
        generation: 0,
        state: CreatureState::Neutral,
        allies: vec![],
    }
}

fn world_of(creatures: Vec<Creature>, foods: Vec<Food>) -> World {
    World { creatures, foods }
}

#[test]
fn default_state_is_neutral() {
    assert_eq!(CreatureState::default(), CreatureState::Neutral);
}

#[test]
fn collision_symmetry() {
    // Radii 10 and 10 at distance 15 on the x-axis: overlap of 5, one
    // event, and oppositely signed non-zero pushes along x.
    let a = base(0, 0);
    let b = base(15, 0);
    let mut w = world_of(vec![a, b], vec![]);
    let evs = resolve_collisions(&mut w);
    assert_eq!(evs.len(), 1);
    assert_eq!(evs[0].a, 0);
    assert_eq!(evs[0].b, 1);
    assert_eq!(evs[0].size_a, 10);
    assert_eq!(evs[0].size_b, 10);
    // push magnitude: (20 - 15) * 10 = 50, fully along x
    assert_eq!(w.creatures[0].ax, -50);
    assert_eq!(w.creatures[1].ax, 50);
    assert_eq!(w.creatures[0].ay, 0);
    assert_eq!(w.creatures[1].ay, 0);
    assert!(w.creatures[0].ax < 0 && w.creatures[1].ax > 0);
}

#[test]
fn collision_zero_distance_is_no_interaction() {
    let a = base(5, 5);
    let b = base(5, 5);
    let mut w = world_of(vec![a, b], vec![]);
    let evs = resolve_collisions(&mut w);
    assert_eq!(evs.len(), 0);
    assert_eq!(w.creatures[0].ax, 0);
    assert_eq!(w.creatures[1].ax, 0);
}

#[test]
fn collision_immovable_absorbs_no_force() {
    let a = base(0, 0);
    let mut b = base(15, 0);
    b.movable = false;
    let mut w = world_of(vec![a, b], vec![]);
    let evs = resolve_collisions(&mut w);
    assert_eq!(evs.len(), 1);
    assert_eq!(w.creatures[0].ax, -50);
    assert_eq!(w.creatures[1].ax, 0);
}

#[test]
fn reproduction_trait_averaging() {
    let mut pa = base(0, 0);
    pa.max_energy = 6000;
    pa.energy = 4000;
    pa.is_in_love = true;
    pa.generation = 1;
    let mut pb = base(10, 0);
    pb.max_energy = 8000;
    pb.energy = 6000;
    pb.is_in_love = true;
    pb.generation = 3;
    let mut w = world_of(vec![pa, pb], vec![]);
    let evs = vec![CollisionEvent { a: 0, b: 1, size_a: 10, size_b: 10 }];
    resolve_events(&mut w, &evs);
    assert_eq!(w.creatures.len(), 3);
    let baby = &w.creatures[2];
    assert_eq!(baby.max_energy, 7000);
    assert_eq!(baby.energy, 5000);
    assert_eq!(baby.generation, 4);
    assert_eq!(baby.x, 5);
    assert_eq!(baby.y, 0);
    assert!(baby.child_time_left > 0);
    assert_eq!(baby.allies, vec![0, 1]);
    // each parent loses its own fraction of its own energy: 10% here
    assert_eq!(w.creatures[0].energy, 4000 - 400);
    assert_eq!(w.creatures[1].energy, 6000 - 600);
    assert!(!w.creatures[0].is_in_love);
    assert!(!w.creatures[1].is_in_love);
    assert!(w.creatures[0].allies.contains(&1) && w.creatures[0].allies.contains(&2));
    assert!(w.creatures[1].allies.contains(&0) && w.creatures[1].allies.contains(&2));
}

#[test]
fn combat_kill_reward() {
    let mut a = base(0, 0);
    a.energy = 5;
    a.max_energy = 1000;
    a.attack_power = 1;
    let mut b = base(10, 0);
    b.energy = 100;
    b.max_energy = 1000;
    b.attack_power = 50;
    let mut w = world_of(vec![a, b], vec![]);
    let evs = vec![CollisionEvent { a: 0, b: 1, size_a: 10, size_b: 10 }];
    resolve_events(&mut w, &evs);
    assert!(!w.creatures[0].alive);
    assert_eq!(w.creatures[0].energy, 0);
    assert!(w.creatures[1].alive);
    assert_eq!(w.creatures[1].energy, 1000);
}

#[test]
fn combat_both_sides_can_die() {
    let mut a = base(0, 0);
    a.energy = 5;
    a.attack_power = 50;
    let mut b = base(10, 0);
    b.energy = 5;
    b.attack_power = 50;
    let mut w = world_of(vec![a, b], vec![]);
    let evs = vec![CollisionEvent { a: 0, b: 1, size_a: 10, size_b: 10 }];
    resolve_events(&mut w, &evs);
    assert!(!w.creatures[0].alive && !w.creatures[1].alive);
    assert_eq!(w.creatures[0].energy, 0);
    assert_eq!(w.creatures[1].energy, 0);
}

#[test]
fn combat_mutual_allies_ignore_the_event() {
    let mut a = base(0, 0);
    a.allies = vec![1];
    let mut b = base(10, 0);
    b.allies = vec![0];
    let mut w = world_of(vec![a, b], vec![]);
    let evs = vec![CollisionEvent { a: 0, b: 1, size_a: 10, size_b: 10 }];
    resolve_events(&mut w, &evs);
    assert_eq!(w.creatures[0].energy, 500);
    assert_eq!(w.creatures[1].energy, 500);
    assert!(w.creatures[0].alive && w.creatures[1].alive);
}

#[test]
fn stale_event_is_skipped_silently() {
    let mut a = base(0, 0);
    a.alive = false;
    let b = base(10, 0);
    let mut w = world_of(vec![a, b], vec![]);
    let evs = vec![
        CollisionEvent { a: 0, b: 1, size_a: 10, size_b: 10 },
        CollisionEvent { a: 1, b: 7, size_a: 10, size_b: 10 },
    ];
    resolve_events(&mut w, &evs);
    assert_eq!(w.creatures[1].energy, 500);
    assert!(w.creatures[1].alive);
}

#[test]
fn starvation() {
    // energy 1, velocity 0, passive loss 50, dt one second: the creature
    // drops to zero and despawns the same tick, with no error.
    let mut a = base(0, 0);
    a.energy = 1;
    let mut w = world_of(vec![a], vec![]);
    drain_energy(&mut w, 1000);
    assert_eq!(w.creatures[0].energy, 0);
    remove_dead(&mut w);
    assert!(!w.creatures[0].alive);
}

#[test]
fn drain_scales_with_speed() {
    let mut a = base(0, 0);
    a.vx = 3;
    a.vy = 4;
    a.energy = 500;
    let mut w = world_of(vec![a], vec![]);
    drain_energy(&mut w, 1000);
    // speed 5, passive 50: 55 per second
    assert_eq!(w.creatures[0].energy, 445);
}

#[test]
fn eating_exclusivity() {
    // Both creatures are within range of the food, but only the strictly
    // closer one eats, and the food is removed exactly once.
    let mut a = base(3, 0);
    a.energy = 100;
    let mut b = base(5, 0);
    b.energy = 100;
    let mut w = world_of(vec![a, b], vec![Food { x: 0, y: 0, energy: 80 }]);
    consume_food(&mut w);
    assert_eq!(w.creatures[0].energy, 180);
    assert_eq!(w.creatures[1].energy, 100);
    assert_eq!(w.foods.len(), 0);
}

#[test]
fn eating_requires_hitbox_contact() {
    let mut a = base(50, 0);
    a.energy = 100;
    let mut w = world_of(vec![a], vec![Food { x: 0, y: 0, energy: 80 }]);
    consume_food(&mut w);
    assert_eq!(w.creatures[0].energy, 100);
    assert_eq!(w.foods.len(), 1);
}

#[test]
fn eating_clamps_at_max_energy() {
    let mut a = base(0, 0);
    a.energy = 950;
    a.max_energy = 1000;
    let mut w = world_of(vec![a], vec![Food { x: 3, y: 0, energy: 80 }]);
    consume_food(&mut w);
    assert_eq!(w.creatures[0].energy, 1000);
    assert_eq!(w.foods.len(), 0);
}

#[test]
fn state_priority_love_beats_food_and_rivals() {
    // Mate-ready, with a rival and food both in range: the state must be
    // InLove and the target the nearest mate-ready creature.
    let mut me = base(0, 0);
    me.is_in_love = true;
    let mut mate = base(100, 0);
    mate.is_in_love = true;
    let rival = base(20, 0);
    let mut w = world_of(vec![me, mate, rival], vec![Food { x: 5, y: 0, energy: 80 }]);
    let d = evaluate(&w, 0);
    assert_eq!(d.state, CreatureState::InLove);
    assert_eq!(d.target, Some((100, 0)));
    assert_eq!(d.factor, 17);
}

#[test]
fn love_without_partner_keeps_state_and_drive() {
    let mut me = base(0, 0);
    me.is_in_love = true;
    me.ax = 33;
    me.ay = -4;
    let mut w = world_of(vec![me], vec![]);
    tick_behavior(&mut w);
    assert_eq!(w.creatures[0].state, CreatureState::InLove);
    assert_eq!(w.creatures[0].ax, 33);
    assert_eq!(w.creatures[0].ay, -4);
}

#[test]
fn ally_exclusion() {
    // The nearest creature is an ally: it is never the combat target,
    // even though it is closer than the rival that gets chosen.
    let mut me = base(0, 0);
    me.allies = vec![1];
    me.aggressiveness = 80;
    let ally = base(20, 0);
    let mut rival = base(60, 0);
    rival.aggressiveness = 10;
    let mut w = world_of(vec![me, ally, rival], vec![]);
    let d = evaluate(&w, 0);
    assert_eq!(d.state, CreatureState::Attacking);
    assert_eq!(d.target, Some((60, 0)));
    assert_eq!(d.factor, 11);
}

#[test]
fn fleeing_negates_the_factor() {
    let mut me = base(0, 0);
    me.aggressiveness = 10;
    let mut other = base(60, 0);
    other.aggressiveness = 90;
    let mut w = world_of(vec![me, other], vec![]);
    let d = evaluate(&w, 0);
    assert_eq!(d.state, CreatureState::Fleeing);
    assert_eq!(d.target, Some((60, 0)));
    assert_eq!(d.factor, -13);
}

#[test]
fn seeks_nearest_food_when_alone() {
    let me = base(0, 0);
    let foods = vec![
        Food { x: 200, y: 0, energy: 80 },
        Food { x: 100, y: 0, energy: 80 },
    ];
    let mut w = world_of(vec![me], foods);
    let d = evaluate(&w, 0);
    assert_eq!(d.state, CreatureState::SeekingFood);
    assert_eq!(d.target, Some((100, 0)));
    assert_eq!(d.factor, 7);
}

#[test]
fn nearest_tie_resolves_to_first_in_order() {
    let me = base(0, 0);
    let left = base(-50, 0);
    let right = base(50, 0);
    let mut w = world_of(vec![me, left, right], vec![]);
    let d = evaluate(&w, 0);
    // both rivals are 50 away; the first encountered (index 1) wins
    assert_eq!(d.target, Some((-50, 0)));
}

#[test]
fn neutral_gives_zero_drive() {
    let mut me = base(0, 0);
    me.ax = 99;
    me.ay = 99;
    let mut w = world_of(vec![me], vec![]);
    tick_behavior(&mut w);
    assert_eq!(w.creatures[0].state, CreatureState::Neutral);
    assert_eq!(w.creatures[0].ax, 0);
    assert_eq!(w.creatures[0].ay, 0);
}

#[test]
fn steering_rescales_the_direction() {
    let me = base(0, 0);
    let mut w = world_of(vec![me], vec![Food { x: 100, y: 0, energy: 80 }]);
    tick_behavior(&mut w);
    assert_eq!(w.creatures[0].state, CreatureState::SeekingFood);
    assert_eq!(w.creatures[0].ax, 7);
    assert_eq!(w.creatures[0].ay, 0);
}

#[test]
fn velocity_is_capped_at_upper_speed() {
    let mut me = base(0, 0);
    me.vx = 100;
    me.vy = 0;
    me.upper_speed = 10;
    let mut w = world_of(vec![me], vec![]);
    tick_behavior(&mut w);
    assert_eq!(w.creatures[0].vx, 10);
    assert_eq!(w.creatures[0].vy, 0);
}

#[test]
fn integration_feeds_acceleration_into_position() {
    let mut me = base(0, 0);
    me.vx = 10;
    me.ax = 5;
    let mut w = world_of(vec![me], vec![]);
    integrate_motion(&mut w, 1000);
    assert_eq!(w.creatures[0].vx, 15);
    assert_eq!(w.creatures[0].x, 15);
}

#[test]
fn child_countdown_gates_mate_readiness() {
    let mut me = base(0, 0);
    me.child_time_left = 5000;
    me.energy = 900;
    me.max_energy = 1000;
    me.want_to_love_rate = 500;
    let mut w = world_of(vec![me], vec![]);
    update_love_flags(&mut w);
    assert!(!w.creatures[0].is_in_love);
    tick_child_timers(&mut w, 2000);
    assert_eq!(w.creatures[0].child_time_left, 3000);
    tick_child_timers(&mut w, 4000);
    assert_eq!(w.creatures[0].child_time_left, 0);
    update_love_flags(&mut w);
    assert!(w.creatures[0].is_in_love);
}

#[test]
fn love_needs_a_strict_energy_ratio() {
    let mut me = base(0, 0);
    me.energy = 500;
    me.max_energy = 1000;
    me.want_to_love_rate = 500;
    let mut w = world_of(vec![me], vec![]);
    update_love_flags(&mut w);
    // exactly at the threshold: the ratio must strictly exceed it
    assert!(!w.creatures[0].is_in_love);
    w.creatures[0].energy = 501;
    update_love_flags(&mut w);
    assert!(w.creatures[0].is_in_love);
}

#[test]
fn spawned_creature_seeds_allies_and_child_phase() {
    let mut w = World::new();
    let id = spawn_creature(
        &mut w,
        7,
        -3,
        500,
        1000,
        3,
        7,
        11,
        13,
        17,
        1000,
        50,
        10,
        10,
        10,
        200,
        300,
        400,
        500,
        100,
        5000,
        2,
        Some((4, 9)),
    );
    assert_eq!(id, 0);
    let c = &w.creatures[0];
    assert_eq!((c.x, c.y), (7, -3));
    assert_eq!(c.allies, vec![4, 9]);
    assert_eq!(c.child_time_left, 5000);
    assert_eq!(c.generation, 2);
    assert!(!c.is_in_love);
    assert_eq!(c.state, CreatureState::Neutral);
    spawn_food(&mut w, 1, 2, 80);
    assert_eq!(w.foods.len(), 1);
    assert_eq!(w.foods[0], Food { x: 1, y: 2, energy: 80 });
}
