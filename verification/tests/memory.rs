//! World Memory scenarios: TTL decay, vision-based dropping, and
//! synthetic-enemy inference.

use ai_cup_22::geom::Vec2;
use ai_cup_22::model::{Constants, Game, Loot, Item, Projectile, Unit, WeaponProperties,
    Zone, AMMO_SLOTS};
use ai_cup_22::util::{bullet_trace_score, get_projectile_traces};
use ai_cup_22::world::World;

fn test_constants() -> Constants {
    Constants {
        unit_radius: 1000,
        unit_health: 100_000,
        max_shield: 100_000,
        max_shield_potions_in_inventory: 3,
        view_distance: 50_000,
        field_of_view: 2000,
        max_unit_forward_speed: 300,
        max_unit_backward_speed: 200,
        zone_speed: 1,
        spawn_ticks: 100,
        weapons: vec![WeaponProperties {
            aim_ticks: 10,
            aim_field_of_view: 1000,
            fire_rate_ticks: 5,
            projectile_damage: 10_000,
            projectile_speed: 1000,
            projectile_life_ticks: 30,
            spread: 100,
            max_inventory_ammo: 20,
        }],
        obstacles: vec![],
    }
}

fn empty_game(tick: i64) -> Game {
    Game {
        my_id: 1,
        current_tick: tick,
        units: vec![],
        loot: vec![],
        projectiles: vec![],
        zone: Zone {
            current_center: Vec2 { x: 0, y: 0 },
            current_radius: 1_000_000,
            next_center: Vec2 { x: 0, y: 0 },
            next_radius: 900_000,
        },
        sounds: vec![],
    }
}

fn base_unit(id: i64, player_id: i64, x: i64, y: i64) -> Unit {
    Unit {
        id,
        player_id,
        health: 100_000,
        shield: 0,
        extra_lives: 0,
        position: Vec2 { x, y },
        remaining_spawn_time: None,
        velocity: Vec2 { x: 0, y: 0 },
        direction: Vec2 { x: 1000, y: 0 },
        aim: 0,
        action: None,
        health_regeneration_start_tick: 0,
        weapon: None,
        next_shot_tick: 0,
        ammo: [0; AMMO_SLOTS],
        shield_potions: 0,
    }
}

#[test]
fn loot_is_forgotten_exactly_after_its_ttl() {
    let mut world = World::new(test_constants());
    let mut seen = empty_game(0);
    seen.loot = vec![Loot {
        id: 7,
        position: Vec2 { x: 100_000, y: 0 },
        item: Item::ShieldPotions { amount: 1 },
    }];
    world.update_game(seen);
    assert_eq!(world.loot.len(), 1);
    // absent and unobserved (no unit sees its position): one TTL tick
    // per snapshot, gone exactly on the 150th
    for tick in 1..150 {
        world.update_game(empty_game(tick));
        assert_eq!(world.loot.len(), 1, "still remembered after {} absences", tick);
    }
    world.update_game(empty_game(150));
    assert_eq!(world.loot.len(), 0);
}

#[test]
fn remembered_enemy_decays_like_loot_but_faster() {
    let mut world = World::new(test_constants());
    let mut seen = empty_game(0);
    seen.units = vec![base_unit(9, 2, 100_000, 0)];
    world.update_game(seen);
    assert_eq!(world.units.len(), 1);
    for tick in 1..50 {
        world.update_game(empty_game(tick));
        assert_eq!(world.units.len(), 1, "still remembered after {} absences", tick);
    }
    world.update_game(empty_game(50));
    assert_eq!(world.units.len(), 0);
}

#[test]
fn visible_back_projection_creates_no_synthetic_shooter() {
    let mut world = World::new(test_constants());
    let mut game = empty_game(0);
    // my unit faces +x and would plainly see the launch point
    game.units = vec![base_unit(1, 1, 0, 0)];
    game.projectiles = vec![Projectile {
        id: 1,
        weapon_type_index: 0,
        shooter_id: 99,
        shooter_player_id: 2,
        position: Vec2 { x: 15_000, y: 0 },
        velocity: Vec2 { x: 1000, y: 0 },
        life_ticks: 20,
    }];
    world.update_game(game);
    // back-projection lands at (5000, 0), inside the vision sector: the
    // shooter would be directly observed, so nothing is invented
    assert!(world.units.is_empty());
}

#[test]
fn unseen_back_projection_creates_a_synthetic_shooter() {
    let mut world = World::new(test_constants());
    let mut game = empty_game(0);
    // my unit faces away from the launch point
    let mut me = base_unit(1, 1, 0, 0);
    me.direction = Vec2 { x: -1000, y: 0 };
    game.units = vec![me];
    game.projectiles = vec![Projectile {
        id: 1,
        weapon_type_index: 0,
        shooter_id: 99,
        shooter_player_id: 2,
        position: Vec2 { x: 15_000, y: 0 },
        velocity: Vec2 { x: 1000, y: 0 },
        life_ticks: 20,
    }];
    world.update_game(game);
    assert_eq!(world.units.len(), 1);
    assert_eq!(world.units[0].id, 99);
    assert_eq!(world.units[0].position, Vec2 { x: 5000, y: 0 });
}

#[test]
fn remembered_enemy_inside_vision_is_dropped_at_once() {
    let mut world = World::new(test_constants());
    let mut seen = empty_game(0);
    seen.units = vec![base_unit(9, 2, 5000, 0)];
    world.update_game(seen);
    assert_eq!(world.units.len(), 1);
    // next tick the enemy is gone and my unit looks right at the spot:
    // the memory is dropped immediately, not after its TTL
    let mut observe = empty_game(1);
    observe.units = vec![base_unit(1, 1, 0, 0)];
    world.update_game(observe);
    assert_eq!(world.units.len(), 0);
}

#[test]
fn projectile_traces_list_every_future_position() {
    let p = Projectile {
        id: 1,
        weapon_type_index: 0,
        shooter_id: 2,
        shooter_player_id: 2,
        position: Vec2 { x: 0, y: 0 },
        velocity: Vec2 { x: 1000, y: 0 },
        life_ticks: 3,
    };
    let traces = get_projectile_traces(&vec![p]);
    assert_eq!(traces.len(), 3);
    assert_eq!(traces[0].position, Vec2 { x: 1000, y: 0 });
    assert_eq!(traces[1].position, Vec2 { x: 2000, y: 0 });
    assert_eq!(traces[2].position, Vec2 { x: 3000, y: 0 });
    assert_eq!(traces[2].life_ticks, 0);
}

#[test]
fn bullet_danger_counts_each_projectile_once() {
    let cons = test_constants();
    let here = Vec2 { x: 0, y: 0 };
    let p = Projectile {
        id: 1,
        weapon_type_index: 0,
        shooter_id: 2,
        shooter_player_id: 2,
        position: Vec2 { x: 0, y: 0 },
        velocity: Vec2 { x: 0, y: 0 },
        life_ticks: 0,
    };
    // the same projectile id listed twice still counts once
    assert_eq!(bullet_trace_score(&vec![p, p], &here, &cons), 100_000_000);
}

#[test]
fn unseen_projectile_flies_one_tick_onward() {
    let mut world = World::new(test_constants());
    let mut seen = empty_game(0);
    seen.projectiles = vec![Projectile {
        id: 5,
        weapon_type_index: 0,
        shooter_id: 9,
        shooter_player_id: 2,
        position: Vec2 { x: 100_000, y: 0 },
        velocity: Vec2 { x: 1000, y: 0 },
        life_ticks: 10,
    }];
    world.update_game(seen);
    assert_eq!(world.projectiles.len(), 1);
    // the next snapshot no longer shows it and nothing sees its spot:
    // it is carried, advanced by exactly one tick
    world.update_game(empty_game(1));
    assert_eq!(world.projectiles.len(), 1);
    assert_eq!(world.projectiles[0].id, 5);
    assert_eq!(world.projectiles[0].position, Vec2 { x: 101_000, y: 0 });
    assert_eq!(world.projectiles[0].life_ticks, 9);
}

#[test]
fn spent_projectile_is_dropped() {
    let mut world = World::new(test_constants());
    let mut seen = empty_game(0);
    seen.projectiles = vec![Projectile {
        id: 6,
        weapon_type_index: 0,
        shooter_id: 9,
        shooter_player_id: 2,
        position: Vec2 { x: 100_000, y: 0 },
        velocity: Vec2 { x: 1000, y: 0 },
        life_ticks: 1,
    }];
    world.update_game(seen);
    assert_eq!(world.projectiles.len(), 1);
    // with one tick of life left there is nothing to carry over
    world.update_game(empty_game(1));
    assert_eq!(world.projectiles.len(), 0);
}

#[test]
fn unexplained_sound_plants_a_synthetic_enemy() {
    let mut world = World::new(test_constants());
    let mut game = empty_game(0);
    // my unit faces +x; the sound comes from well behind it
    game.units = vec![base_unit(1, 1, 0, 0)];
    game.sounds = vec![ai_cup_22::model::Sound {
        type_index: 0,
        unit_id: 0,
        position: Vec2 { x: -30_000, y: 0 },
    }];
    world.update_game(game);
    assert_eq!(world.units.len(), 1);
    assert_eq!(world.units[0].id, -1);
    assert_eq!(world.units[0].position, Vec2 { x: -30_000, y: 0 });
}

#[test]
fn explained_sound_plants_nothing() {
    let mut world = World::new(test_constants());
    let mut game = empty_game(0);
    game.units = vec![base_unit(1, 1, 0, 0)];
    // the sound is right next to my own unit: explained, no synthetic
    game.sounds = vec![ai_cup_22::model::Sound {
        type_index: 0,
        unit_id: 0,
        position: Vec2 { x: -2_000, y: 0 },
    }];
    world.update_game(game);
    assert_eq!(world.units.len(), 0);
}
