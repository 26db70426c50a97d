//! Combat Simulator and geometry kernel scenarios.

use ai_cup_22::fight_sim::{simulation, FightSimResult};
use ai_cup_22::geom::{cos_mrad, isqrt, Vec2};
use ai_cup_22::util::does_intersect;
use ai_cup_22::model::{Constants, Obstacle, Unit, WeaponProperties, AMMO_SLOTS};

fn test_constants() -> Constants {
    Constants {
        unit_radius: 1000,
        unit_health: 100_000,
        max_shield: 100_000,
        max_shield_potions_in_inventory: 3,
        view_distance: 50_000,
        field_of_view: 2000,
        max_unit_forward_speed: 300,
        max_unit_backward_speed: 200,
        zone_speed: 1,
        spawn_ticks: 100,
        weapons: vec![WeaponProperties {
            aim_ticks: 10,
            aim_field_of_view: 1000,
            fire_rate_ticks: 5,
            projectile_damage: 10_000,
            projectile_speed: 1000,
            projectile_life_ticks: 30,
            spread: 100,
            max_inventory_ammo: 20,
        }],
        obstacles: vec![],
    }
}

fn base_unit(id: i64, player_id: i64, x: i64, y: i64) -> Unit {
    Unit {
        id,
        player_id,
        health: 100_000,
        shield: 0,
        extra_lives: 0,
        position: Vec2 { x, y },
        remaining_spawn_time: None,
        velocity: Vec2 { x: 0, y: 0 },
        direction: Vec2 { x: 1000, y: 0 },
        aim: 0,
        action: None,
        health_regeneration_start_tick: 0,
        weapon: None,
        next_shot_tick: 0,
        ammo: [0; AMMO_SLOTS],
        shield_potions: 0,
    }
}

fn armed_unit(id: i64, player_id: i64, x: i64, y: i64, ammo: i64) -> Unit {
    let mut u = base_unit(id, player_id, x, y);
    u.weapon = Some(0);
    u.ammo[0] = ammo;
    u
}

#[test]
fn isqrt_exact_values() {
    assert_eq!(isqrt(0), 0);
    assert_eq!(isqrt(16), 4);
    assert_eq!(isqrt(24), 4);
    assert_eq!(isqrt(25), 5);
    assert_eq!(isqrt(u64::MAX), 4_294_967_295);
}

#[test]
fn distance_three_four_five() {
    let a = Vec2 { x: 0, y: 0 };
    let b = Vec2 { x: 3000, y: 4000 };
    assert_eq!(a.distance(&b), 5000);
}

#[test]
fn cosine_fixed_points() {
    assert_eq!(cos_mrad(0), 1000);
    assert_eq!(cos_mrad(1571), 0);
    assert_eq!(cos_mrad(-1571), 0);
    assert!(cos_mrad(3000) < 0);
}

#[test]
fn occlusion_blocks_solid_obstacle_only() {
    let solid = Obstacle {
        id: 1,
        position: Vec2 { x: 5000, y: 0 },
        radius: 1000,
        can_shoot_through: false,
    };
    let soft = Obstacle {
        id: 2,
        position: Vec2 { x: 5000, y: 0 },
        radius: 1000,
        can_shoot_through: true,
    };
    assert!(does_intersect(0, 0, 10_000, 0, &vec![solid]));
    assert!(!does_intersect(0, 0, 10_000, 0, &vec![soft]));
    // passing far to the side does not block
    assert!(!does_intersect(0, 5000, 10_000, 5000, &vec![solid]));
}

#[test]
fn armed_versus_weaponless_is_a_clean_win() {
    let cons = test_constants();
    let me = armed_unit(1, 1, 0, 0, 10);
    let foe = base_unit(2, 2, 2000, 0);
    let r = simulation(&vec![me], &vec![foe], &cons, 0);
    assert_eq!(r, FightSimResult::WON(0));
}

#[test]
fn weaponless_versus_armed_is_lost() {
    let cons = test_constants();
    let me = base_unit(1, 1, 0, 0);
    let foe = armed_unit(2, 2, 2000, 0, 10);
    let r = simulation(&vec![me], &vec![foe], &cons, 0);
    assert_eq!(r, FightSimResult::LOST);
}

#[test]
fn both_ineligible_resolves_to_lost() {
    let cons = test_constants();
    let me = base_unit(1, 1, 0, 0);
    let foe = base_unit(2, 2, 2000, 0);
    // with no eligible fighter on my side the fight is forfeited, even
    // though the other side has none either
    let r = simulation(&vec![me], &vec![foe], &cons, 0);
    assert_eq!(r, FightSimResult::LOST);
}

#[test]
fn simulation_is_deterministic() {
    let cons = test_constants();
    let a = armed_unit(1, 1, 0, 0, 3);
    let b = armed_unit(2, 2, 9000, 0, 7);
    let r1 = simulation(&vec![a, armed_unit(3, 1, 500, 0, 2)], &vec![b], &cons, 17);
    let r2 = simulation(&vec![a, armed_unit(3, 1, 500, 0, 2)], &vec![b], &cons, 17);
    assert_eq!(r1, r2);
}

#[test]
fn swapping_groups_negates_a_decisive_result() {
    let cons = test_constants();
    let strong = armed_unit(1, 1, 0, 0, 10);
    let mut weak = armed_unit(2, 2, 2000, 0, 10);
    weak.health = 1000;
    let forward = simulation(&vec![strong], &vec![weak], &cons, 0);
    let backward = simulation(&vec![weak], &vec![strong], &cons, 0);
    assert!(matches!(forward, FightSimResult::WON(_)));
    assert_eq!(backward, FightSimResult::LOST);
}

#[test]
fn out_of_ammo_fight_is_a_draw() {
    let cons = test_constants();
    // both sides armed with one round each and too far to finish the
    // other: once the ammo is gone the projection is a draw
    let mut a = armed_unit(1, 1, 0, 0, 1);
    a.health = 100_000;
    let mut b = armed_unit(2, 2, 29_000, 0, 1);
    b.health = 100_000;
    let r = simulation(&vec![a], &vec![b], &cons, 0);
    assert_eq!(r, FightSimResult::DRAW);
}

#[test]
fn ammo_for_current_weapon_follows_the_held_weapon() {
    let bare = base_unit(1, 1, 0, 0);
    assert_eq!(bare.ammo_for_current_weapon(), 0);
    let mut armed = base_unit(2, 1, 0, 0);
    armed.weapon = Some(0);
    armed.ammo[0] = 7;
    assert_eq!(armed.ammo_for_current_weapon(), 7);
}
