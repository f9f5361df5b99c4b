use alife::behavior::tick_behavior;
use alife::collision::resolve_collisions;
use alife::creature::{Creature, CreatureState};
use alife::energy::{consume_food, remove_dead};
use alife::math::{avg_nn, clamp_i64, half_i64, isqrt, scale_dir};
use alife::world::{Food, World};

fn plain(x: i64, y: i64) -> Creature {
    Creature {
        alive: true,
        movable: true,
        x,
        y,
        vx: 0,
        vy: 0,
        ax: 0,
        ay: 0,
        energy: 500,
        max_energy: 1000,
        neutral_accel_factor: 3,
        eat_accel_factor: 7,
        attack_accel_factor: 11,
        flee_accel_factor: 13,
        love_accel_factor: 17,
        upper_speed: 1000,
        aggressiveness: 50,
        attack_power: 10,
        hitbox_radius: 10,
        hitbox_repulsion: 10,
        creature_vision_radius: 200,
        food_vision_radius: 300,
        love_vision_radius: 400,
        want_to_love_rate: 500,
        energy_rate_given_to_baby: 100,
        is_a_child_time: 5000,
        child_time_left: 0,
        is_in_love: false,
        generation: 0,
        state: CreatureState::Neutral,
        allies: vec![],
    }
}

#[test]
fn isqrt_is_the_floor_square_root() {
    assert_eq!(isqrt(0), 0);
    assert_eq!(isqrt(1), 1);
    assert_eq!(isqrt(15), 3);
    assert_eq!(isqrt(16), 4);
    assert_eq!(isqrt(24), 4);
    assert_eq!(isqrt(25), 5);
    assert_eq!(isqrt(u64::MAX), 4294967295);
}

#[test]
fn clamp_holds_both_bounds() {
    assert_eq!(clamp_i64(5, 0, 3), 3);
    assert_eq!(clamp_i64(-5, 0, 3), 0);
    assert_eq!(clamp_i64(2, 0, 3), 2);
}

#[test]
fn averaging_floors_and_halving_rounds_toward_zero() {
    assert_eq!(avg_nn(6000, 8000), 7000);
    assert_eq!(avg_nn(3, 4), 3);
    assert_eq!(half_i64(7), 3);
    assert_eq!(half_i64(-7), -3);
    assert_eq!(half_i64(-8), -4);
}

#[test]
fn direction_rescaling_keeps_sign_and_magnitude() {
    // a 3-4-5 direction rescaled to length 10
    assert_eq!(scale_dir(3, 10, 5), 6);
    assert_eq!(scale_dir(-4, 10, 5), -8);
    assert_eq!(scale_dir(4, -10, 5), -8);
    assert_eq!(scale_dir(0, 10, 5), 0);
}

#[test]
fn fleeing_steers_away_from_the_rival() {
    let mut me = plain(0, 0);
    me.aggressiveness = 10;
    let mut bully = plain(60, 0);
    bully.aggressiveness = 90;
    let mut w = World { creatures: vec![me, bully], foods: vec![] };
    tick_behavior(&mut w);
    assert_eq!(w.creatures[0].state, CreatureState::Fleeing);
    // target is at +x but the negated factor pushes toward -x
    assert_eq!(w.creatures[0].ax, -13);
    assert_eq!(w.creatures[0].ay, 0);
}

#[test]
fn every_overlapping_pair_emits_exactly_one_event() {
    // three creatures in a row, each overlapping only its neighbour
    let a = plain(0, 0);
    let b = plain(15, 0);
    let c = plain(30, 0);
    let mut w = World { creatures: vec![a, b, c], foods: vec![] };
    let evs = resolve_collisions(&mut w);
    let pairs: Vec<(usize, usize)> = evs.iter().map(|e| (e.a, e.b)).collect();
    assert_eq!(pairs, vec![(0, 1), (1, 2)]);
    // the middle creature is pushed from both sides equally
    assert_eq!(w.creatures[1].ax, 0);
    assert_eq!(w.creatures[0].ax, -50);
    assert_eq!(w.creatures[2].ax, 50);
}

#[test]
fn one_creature_can_eat_several_foods() {
    let mut a = plain(0, 0);
    a.energy = 100;
    a.max_energy = 10000;
    let foods = vec![
        Food { x: 3, y: 0, energy: 80 },
        Food { x: 500, y: 0, energy: 80 },
        Food { x: 0, y: 4, energy: 80 },
    ];
    let mut w = World { creatures: vec![a], foods };
    consume_food(&mut w);
    assert_eq!(w.creatures[0].energy, 260);
    // the far food survives, in place
    assert_eq!(w.foods, vec![Food { x: 500, y: 0, energy: 80 }]);
}

#[test]
fn despawning_is_idempotent() {
    let mut a = plain(0, 0);
    a.energy = 0;
    let mut w = World { creatures: vec![a], foods: vec![] };
    remove_dead(&mut w);
    assert!(!w.creatures[0].alive);
    remove_dead(&mut w);
    assert!(!w.creatures[0].alive);
    assert_eq!(w.creatures.len(), 1);
}

#[test]
fn dead_creatures_draw_no_attention() {
    // a dead creature is neither a rival nor an eater
    let mut corpse = plain(10, 0);
    corpse.alive = false;
    let me = plain(0, 0);
    let mut w = World {
        creatures: vec![me, corpse],
        foods: vec![Food { x: 9, y: 0, energy: 80 }],
    };
    consume_food(&mut w);
    // the living creature is nearer to nothing: food is 9 away, within
    // its radius 10, so it eats despite the dead neighbour being closer
    assert_eq!(w.creatures[0].energy, 580);
    assert_eq!(w.creatures[1].energy, 500);
    assert_eq!(w.foods.len(), 0);
}

#[test]
fn velocity_cap_holds_on_diagonals() {
    // |v| = sqrt(2) exceeds the cap 1; dividing by the ceiling of the
    // magnitude brings the speed at (or below) the cap instead of leaving
    // it above.
    let mut me = plain(0, 0);
    me.vx = 1;
    me.vy = 1;
    me.upper_speed = 1;
    let mut w = World { creatures: vec![me], foods: vec![] };
    tick_behavior(&mut w);
    let c = &w.creatures[0];
    assert!(c.vx * c.vx + c.vy * c.vy <= c.upper_speed * c.upper_speed);
    assert_eq!((c.vx, c.vy), (0, 0));
}
