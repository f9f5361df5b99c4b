use alife::spawn::{spawn_initial_creatures, spawn_random_creature, spawn_random_food};
use alife::world::World;

#[test]
fn random_creature_traits_lie_in_their_ranges() {
    let mut w = World::new();
    let id = spawn_random_creature(&mut w);
    assert_eq!(id, 0);
    let c = &w.creatures[0];
    assert!(-2500 <= c.x && c.x < 2500);
    assert!(-1500 <= c.y && c.y < 1500);
    assert!(6400 <= c.max_energy && c.max_energy < 12800);
    assert_eq!(c.energy, 700 * c.max_energy / 1000);
    for f in [
        c.neutral_accel_factor,
        c.eat_accel_factor,
        c.attack_accel_factor,
        c.flee_accel_factor,
        c.love_accel_factor,
    ] {
        assert!(1 <= f && f < 500);
    }
    assert!(1 <= c.upper_speed && c.upper_speed < 1000);
    assert!(0 <= c.aggressiveness && c.aggressiveness < 100);
    assert!(0 <= c.attack_power && c.attack_power < 100);
    assert!(5 <= c.hitbox_radius && c.hitbox_radius < 100);
    assert!(10 <= c.hitbox_repulsion && c.hitbox_repulsion < 1000);
    assert!(10 <= c.creature_vision_radius && c.creature_vision_radius < 500);
    assert!(10 <= c.food_vision_radius && c.food_vision_radius < 3000);
    assert!(10 <= c.love_vision_radius && c.love_vision_radius < 10000);
    assert!(100 <= c.want_to_love_rate && c.want_to_love_rate < 900);
    assert!(100 <= c.energy_rate_given_to_baby && c.energy_rate_given_to_baby < 900);
    assert!(5000 <= c.is_a_child_time && c.is_a_child_time < 30000);
    assert_eq!(c.child_time_left, c.is_a_child_time);
    assert_eq!(c.generation, 0);
    assert!(c.allies.is_empty());
    assert!(c.alive && c.movable && !c.is_in_love);
    assert_eq!((c.vx, c.vy, c.ax, c.ay), (0, 0, 0, 0));
}

#[test]
fn initial_population_has_the_starting_count() {
    let mut w = World::new();
    spawn_initial_creatures(&mut w);
    assert_eq!(w.creatures.len(), 60);
    assert!(w.creatures.iter().all(|c| c.alive && c.generation == 0));
}

#[test]
fn random_food_lands_on_the_map_with_fixed_yield() {
    let mut w = World::new();
    spawn_random_food(&mut w);
    assert_eq!(w.foods.len(), 1);
    let f = &w.foods[0];
    assert!(-2500 <= f.x && f.x < 2500);
    assert!(-1500 <= f.y && f.y < 1500);
    assert_eq!(f.energy, 80);
}
