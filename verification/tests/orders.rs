//! Full-pipeline scenarios: behaviour selection and the per-tick order
//! map.

use ai_cup_22::geom::Vec2;
use ai_cup_22::model::{ActionOrder, Constants, Game, Unit, WeaponProperties, Zone,
    AMMO_SLOTS};
use ai_cup_22::strategy::get_order;
use ai_cup_22::world::World;

fn test_constants() -> Constants {
    Constants {
        unit_radius: 1000,
        unit_health: 100_000,
        max_shield: 100_000,
        max_shield_potions_in_inventory: 3,
        view_distance: 50_000,
        field_of_view: 2000,
        max_unit_forward_speed: 300,
        max_unit_backward_speed: 200,
        zone_speed: 1,
        spawn_ticks: 100,
        weapons: vec![WeaponProperties {
            aim_ticks: 10,
            aim_field_of_view: 1000,
            fire_rate_ticks: 5,
            projectile_damage: 10_000,
            projectile_speed: 1000,
            projectile_life_ticks: 30,
            spread: 100,
            max_inventory_ammo: 20,
        }],
        obstacles: vec![],
    }
}

fn base_unit(id: i64, player_id: i64, x: i64, y: i64) -> Unit {
    Unit {
        id,
        player_id,
        health: 100_000,
        shield: 0,
        extra_lives: 0,
        position: Vec2 { x, y },
        remaining_spawn_time: None,
        velocity: Vec2 { x: 0, y: 0 },
        direction: Vec2 { x: 1000, y: 0 },
        aim: 0,
        action: None,
        health_regeneration_start_tick: 0,
        weapon: None,
        next_shot_tick: 0,
        ammo: [0; AMMO_SLOTS],
        shield_potions: 0,
    }
}

fn game_with_units(units: Vec<Unit>) -> Game {
    Game {
        my_id: 1,
        current_tick: 200,
        units,
        loot: vec![],
        projectiles: vec![],
        zone: Zone {
            current_center: Vec2 { x: 0, y: 0 },
            current_radius: 1_000_000,
            next_center: Vec2 { x: 0, y: 0 },
            next_radius: 900_000,
        },
        sounds: vec![],
    }
}

#[test]
fn winnable_fight_aims_and_shoots() {
    let mut world = World::new(test_constants());
    let mut me = base_unit(1, 1, 0, 0);
    me.weapon = Some(0);
    me.ammo[0] = 10;
    me.aim = 1000;
    let foe = base_unit(2, 2, 2000, 0);
    world.update_game(game_with_units(vec![me, foe]));
    let orders = get_order(&mut world);
    assert_eq!(orders.unit_orders.len(), 1);
    assert_eq!(orders.unit_orders[0].0, 1);
    match orders.unit_orders[0].1.action {
        Some(ActionOrder::Aim { shoot }) => assert!(shoot),
        other => panic!("expected an aim order, got {:?}", other),
    }
}

#[test]
fn hurt_unit_with_a_potion_retreats_and_drinks() {
    let mut world = World::new(test_constants());
    let mut me = base_unit(1, 1, 0, 0);
    me.health = 10_000;
    me.shield_potions = 1;
    world.update_game(game_with_units(vec![me]));
    let orders = get_order(&mut world);
    assert_eq!(orders.unit_orders.len(), 1);
    assert_eq!(
        orders.unit_orders[0].1.action,
        Some(ActionOrder::UseShieldPotion)
    );
}

#[test]
fn drinking_repeats_every_tick_until_healed() {
    let mut world = World::new(test_constants());
    let mut me = base_unit(1, 1, 0, 0);
    me.health = 10_000;
    me.shield_potions = 1;
    for tick in 0..3 {
        let mut game = game_with_units(vec![me]);
        game.current_tick = 200 + tick;
        world.update_game(game);
        let orders = get_order(&mut world);
        assert_eq!(
            orders.unit_orders[0].1.action,
            Some(ActionOrder::UseShieldPotion),
            "potion order expected on tick {}",
            tick
        );
    }
}

#[test]
fn unspawned_unit_holds_and_scans() {
    let mut world = World::new(test_constants());
    let mut me = base_unit(1, 1, 0, 0);
    me.remaining_spawn_time = Some(40);
    let mut game = game_with_units(vec![me]);
    game.current_tick = 10;
    world.update_game(game);
    let orders = get_order(&mut world);
    let order = &orders.unit_orders[0].1;
    assert!(order.action.is_none());
    // the facing sweeps: a quarter turn from (1000, 0)
    assert_eq!(order.target_direction, Vec2 { x: 0, y: 1000 });
}

#[test]
fn orders_come_in_ascending_unit_id_order() {
    let mut world = World::new(test_constants());
    let units = vec![
        base_unit(3, 1, 0, 0),
        base_unit(1, 1, 30_000, 0),
        base_unit(2, 1, -30_000, 0),
    ];
    world.update_game(game_with_units(units));
    let orders = get_order(&mut world);
    let ids: Vec<i64> = orders.unit_orders.iter().map(|e| e.0).collect();
    assert_eq!(ids, vec![1, 2, 3]);
}

#[test]
fn idle_unit_falls_back_to_move_or_loot() {
    let mut world = World::new(test_constants());
    let me = base_unit(1, 1, 500_000, 0);
    world.update_game(game_with_units(vec![me]));
    let orders = get_order(&mut world);
    let order = &orders.unit_orders[0].1;
    // healthy, alone, nothing to fight or grab: no action, just motion
    assert!(order.action.is_none());
    assert!(order.target_velocity.x != 0 || order.target_velocity.y != 0);
}

#[test]
fn zone_penalty_grows_near_the_border() {
    let zone = Zone {
        current_center: Vec2 { x: 0, y: 0 },
        current_radius: 1_000_000,
        next_center: Vec2 { x: 0, y: 0 },
        next_radius: 900_000,
    };
    let inside = Vec2 { x: 100_000, y: 0 };
    let fringe = Vec2 { x: 950_000, y: 0 };
    assert_eq!(ai_cup_22::scoring::zone_penalty(&inside, &zone), 0);
    assert_eq!(ai_cup_22::scoring::zone_penalty(&fringe, &zone), 47_500_000);
}

#[test]
fn loot_in_reach_is_picked_up_and_consumed() {
    let mut world = World::new(test_constants());
    let mut game = game_with_units(vec![base_unit(1, 1, 0, 0)]);
    game.loot = vec![ai_cup_22::model::Loot {
        id: 77,
        position: Vec2 { x: 500, y: 0 },
        item: ai_cup_22::model::Item::ShieldPotions { amount: 1 },
    }];
    world.update_game(game);
    assert_eq!(world.loot.len(), 1);
    let orders = get_order(&mut world);
    match orders.unit_orders[0].1.action {
        Some(ActionOrder::Pickup { loot }) => assert_eq!(loot, 77),
        other => panic!("expected a pickup order, got {:?}", other),
    }
    // picked up: booked for this tick and removed from loot memory
    assert!(world.booked_loot.contains(&77));
    assert!(world.loot.is_empty());
}
