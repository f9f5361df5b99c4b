use alife::creature::{Creature, CreatureState};
use alife::tick::run_tick;
use alife::world::{Food, World};

fn adult(x: i64, y: i64) -> Creature {
    Creature {
        alive: true,
        movable: true,
        x,
        y,
        vx: 0,
        vy: 0,
        ax: 0,
        ay: 0,
        energy: 500,
        max_energy: 1000,
        neutral_accel_factor: 3,
        eat_accel_factor: 7,
        attack_accel_factor: 11,
        flee_accel_factor: 13,
        love_accel_factor: 17,
        upper_speed: 1000,
        aggressiveness: 50,
        attack_power: 10,
        hitbox_radius: 10,
        hitbox_repulsion: 10,
        creature_vision_radius: 200,
        food_vision_radius: 300,
        love_vision_radius: 400,
        want_to_love_rate: 500,
        energy_rate_given_to_baby: 100,
        is_a_child_time: 5000,
        child_time_left: 0,
        is_in_love: false,
        generation: 0,
        state: CreatureState::Neutral,
        allies: vec![],
    }
}

#[test]
fn one_tick_starves_an_exhausted_creature() {
    let mut a = adult(0, 0);
    a.energy = 1;
    let mut w = World { creatures: vec![a], foods: vec![] };
    run_tick(&mut w, 1000);
    assert!(!w.creatures[0].alive);
    assert_eq!(w.creatures[0].energy, 0);
}

#[test]
fn one_tick_resolves_combat_from_this_ticks_events() {
    // the pair overlaps, so the tick emits an event and consumes it:
    // the weak side falls, the survivor is refilled to its maximum
    let mut a = adult(0, 0);
    a.energy = 30;
    a.attack_power = 50;
    let mut b = adult(15, 0);
    b.energy = 500;
    b.attack_power = 50;
    let mut w = World { creatures: vec![a, b], foods: vec![] };
    run_tick(&mut w, 0);
    assert!(!w.creatures[0].alive);
    assert!(w.creatures[1].alive);
    assert_eq!(w.creatures[1].energy, 1000);
}

#[test]
fn one_tick_feeds_eats_and_removes_the_food() {
    let mut a = adult(0, 0);
    a.energy = 100;
    let mut w = World {
        creatures: vec![a],
        foods: vec![Food { x: 3, y: 0, energy: 80 }],
    };
    run_tick(&mut w, 0);
    assert_eq!(w.creatures[0].energy, 180);
    assert_eq!(w.foods.len(), 0);
}

#[test]
fn one_tick_can_mate_an_overlapping_energetic_pair() {
    // Both sides cross the mate-readiness threshold when the economy
    // recomputes the flag, so the event emitted earlier in the same tick
    // is consumed as a mating: one trait-averaged offspring appears.
    let mut a = adult(0, 0);
    a.energy = 900;
    let mut b = adult(15, 0);
    b.energy = 900;
    let mut w = World { creatures: vec![a, b], foods: vec![] };
    run_tick(&mut w, 0);
    assert_eq!(w.creatures.len(), 3);
    let baby = &w.creatures[2];
    assert_eq!(baby.max_energy, 1000);
    assert_eq!(baby.generation, 1);
    assert!(baby.child_time_left > 0);
    assert!(!w.creatures[0].is_in_love && !w.creatures[1].is_in_love);
    assert_eq!(w.creatures[0].energy, 900 - 90);
    assert_eq!(w.creatures[1].energy, 900 - 90);
}
