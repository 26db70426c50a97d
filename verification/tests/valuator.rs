//! Loot Valuator scenarios: booking exclusivity, need filters, and the
//! closer-of-equals preference.

use ai_cup_22::geom::Vec2;
use ai_cup_22::loot::best_loot;
use ai_cup_22::model::{Constants, Game, Item, Loot, Unit, WeaponProperties, Zone,
    AMMO_SLOTS};
use ai_cup_22::world::World;

fn test_constants() -> Constants {
    Constants {
        unit_radius: 1000,
        unit_health: 100_000,
        max_shield: 100_000,
        max_shield_potions_in_inventory: 3,
        view_distance: 50_000,
        field_of_view: 2000,
        max_unit_forward_speed: 300,
        max_unit_backward_speed: 200,
        zone_speed: 1,
        spawn_ticks: 100,
        weapons: vec![
            WeaponProperties {
                aim_ticks: 10,
                aim_field_of_view: 1000,
                fire_rate_ticks: 5,
                projectile_damage: 10_000,
                projectile_speed: 1000,
                projectile_life_ticks: 30,
                spread: 100,
                max_inventory_ammo: 20,
            },
            WeaponProperties {
                aim_ticks: 20,
                aim_field_of_view: 800,
                fire_rate_ticks: 10,
                projectile_damage: 20_000,
                projectile_speed: 1500,
                projectile_life_ticks: 30,
                spread: 80,
                max_inventory_ammo: 10,
            },
        ],
        obstacles: vec![],
    }
}

fn base_unit(id: i64, player_id: i64, x: i64, y: i64) -> Unit {
    Unit {
        id,
        player_id,
        health: 100_000,
        shield: 0,
        extra_lives: 0,
        position: Vec2 { x, y },
        remaining_spawn_time: None,
        velocity: Vec2 { x: 0, y: 0 },
        direction: Vec2 { x: 1000, y: 0 },
        aim: 0,
        action: None,
        health_regeneration_start_tick: 0,
        weapon: None,
        next_shot_tick: 0,
        ammo: [0; AMMO_SLOTS],
        shield_potions: 0,
    }
}

fn world_with_loot(loot: Vec<Loot>) -> World {
    let mut world = World::new(test_constants());
    let game = Game {
        my_id: 1,
        current_tick: 0,
        units: vec![],
        loot,
        projectiles: vec![],
        zone: Zone {
            current_center: Vec2 { x: 0, y: 0 },
            current_radius: 1_000_000,
            next_center: Vec2 { x: 0, y: 0 },
            next_radius: 900_000,
        },
        sounds: vec![],
    };
    world.update_game(game);
    world
}

fn potion_loot(id: i64, x: i64, y: i64) -> Loot {
    Loot {
        id,
        position: Vec2 { x, y },
        item: Item::ShieldPotions { amount: 1 },
    }
}

#[test]
fn equal_value_prefers_the_closer_item() {
    let world = world_with_loot(vec![
        potion_loot(11, 7000, 0),
        potion_loot(12, 5000, 0),
    ]);
    let me = base_unit(1, 1, 0, 0);
    let best = best_loot(&me, &world.loot, false, &world);
    assert_eq!(best.map(|l| l.id), Some(12));
}

#[test]
fn booked_loot_is_never_offered_again() {
    let mut world = world_with_loot(vec![
        potion_loot(11, 7000, 0),
        potion_loot(12, 5000, 0),
    ]);
    let me = base_unit(1, 1, 0, 0);
    let first = best_loot(&me, &world.loot, false, &world).unwrap();
    assert_eq!(first.id, 12);
    world.book_loot(first.id);
    // a second unit evaluated in the same tick cannot be sent to it
    let other = base_unit(2, 1, 100, 0);
    let second = best_loot(&other, &world.loot, false, &world).unwrap();
    assert_eq!(second.id, 11);
    world.book_loot(second.id);
    let third = best_loot(&me, &world.loot, false, &world);
    assert!(third.is_none());
}

#[test]
fn unneeded_loot_is_filtered_out() {
    // a weapon below the held one is no upgrade
    let world = world_with_loot(vec![Loot {
        id: 21,
        position: Vec2 { x: 5000, y: 0 },
        item: Item::Weapon { type_index: 0 },
    }]);
    let mut me = base_unit(1, 1, 0, 0);
    me.weapon = Some(1);
    me.ammo[1] = 5;
    assert!(best_loot(&me, &world.loot, false, &world).is_none());
    // full potion inventory wants no more potions
    let world2 = world_with_loot(vec![potion_loot(22, 5000, 0)]);
    let mut full = base_unit(1, 1, 0, 0);
    full.shield_potions = 3;
    assert!(best_loot(&full, &world2.loot, false, &world2).is_none());
}

#[test]
fn loot_in_enemy_reach_is_avoided() {
    let mut world = world_with_loot(vec![potion_loot(31, 5000, 0)]);
    // a remembered armed enemy right next to the loot
    let mut foe = base_unit(9, 2, 6000, 0);
    foe.weapon = Some(0);
    foe.ammo[0] = 10;
    let mut game = world.game.clone();
    game.units = vec![foe];
    game.loot = vec![potion_loot(31, 5000, 0)];
    game.current_tick = 1;
    world.update_game(game);
    let me = base_unit(1, 1, 0, 0);
    assert!(best_loot(&me, &world.loot, false, &world).is_none());
}

#[test]
fn pickup_range_splits_the_candidates() {
    let world = world_with_loot(vec![
        potion_loot(41, 500, 0),
        potion_loot(42, 5000, 0),
    ]);
    let me = base_unit(1, 1, 0, 0);
    let reach = best_loot(&me, &world.loot, true, &world);
    assert_eq!(reach.map(|l| l.id), Some(41));
    let approach = best_loot(&me, &world.loot, false, &world);
    assert_eq!(approach.map(|l| l.id), Some(42));
}

#[test]
fn weapon_upgrade_beats_nothing_in_hand() {
    let world = world_with_loot(vec![Loot {
        id: 51,
        position: Vec2 { x: 5000, y: 0 },
        item: Item::Weapon { type_index: 1 },
    }]);
    let me = base_unit(1, 1, 0, 0);
    let best = best_loot(&me, &world.loot, false, &world);
    assert_eq!(best.map(|l| l.id), Some(51));
}
