use invaders::game::{DrawCmd, Entity, Game, PowerUp};
use invaders::model::{DrawColor, KeyId, PowerUpType};

// Coordinates are milli-pixels, durations milliseconds: an 800 by 800 pixel
// window is 800_000 by 800_000, and 0.1 s is 100.
const W: i64 = 800_000;
const H: i64 = 800_000;

fn world() -> Game {
    Game::new(W, H)
}

#[test]
fn new_world_layout() {
    let g = world();
    assert_eq!(g.player, Entity { x: 400_000, y: 780_000 });
    assert!(g.bullets.is_empty());
    assert!(g.enemies.is_empty());
    assert!(g.power_ups.is_empty());
    assert_eq!(g.enemy_spawn_timer, 0);
    assert_eq!(g.power_up_spawn_timer, 0);
    assert_eq!(g.power_up_active, None);
    assert_eq!(g.power_up_active_timer, 0);
    assert_eq!(g.key_state, None);
}

#[test]
fn key_pressed_space_fires_at_once() {
    let mut g = world();
    g.key_pressed(KeyId::Space);
    assert_eq!(g.key_state, Some(KeyId::Space));
    assert_eq!(g.bullets, vec![Entity { x: 400_000, y: 760_000 }]);
}

#[test]
fn key_pressed_overwrites_single_slot() {
    let mut g = world();
    g.key_pressed(KeyId::Left);
    assert_eq!(g.key_state, Some(KeyId::Left));
    g.key_pressed(KeyId::Right);
    assert_eq!(g.key_state, Some(KeyId::Right));
    assert!(g.bullets.is_empty());
    g.key_released(KeyId::Right);
    assert_eq!(g.key_state, None);
}

#[test]
fn movement_left_base_speed() {
    let mut g = world();
    g.key_state = Some(KeyId::Left);
    g.update_with(100, 0, 0, PowerUpType::SpeedBoost);
    // 200 px/s for 0.1 s is 20 pixels.
    assert_eq!(g.player.x, 400_000 - 20_000);
    assert_eq!(g.player.y, 780_000);
}

#[test]
fn movement_right_base_speed() {
    let mut g = world();
    g.key_state = Some(KeyId::Right);
    g.update_with(100, 0, 0, PowerUpType::SpeedBoost);
    assert_eq!(g.player.x, 400_000 + 20_000);
}

#[test]
fn movement_boosted_speed() {
    let mut g = world();
    g.key_state = Some(KeyId::Left);
    g.power_up_active = Some(PowerUpType::SpeedBoost);
    g.power_up_active_timer = 30_000;
    g.update_with(100, 0, 0, PowerUpType::SpeedBoost);
    // 245 px/s for 0.1 s is 24.5 pixels.
    assert_eq!(g.player.x, 400_000 - 24_500);
}

#[test]
fn movement_without_key_is_none() {
    let mut g = world();
    g.update_with(100, 0, 0, PowerUpType::SpeedBoost);
    assert_eq!(g.player.x, 400_000);
}

#[test]
fn enemy_spawn_scenario() {
    // Accumulator at 0.9 s, one 0.2 s tick: exactly one enemy at the top.
    let mut g = world();
    g.enemy_spawn_timer = 900;
    g.update(200);
    assert_eq!(g.enemies.len(), 1);
    // The enemy spawned at the top, then fell for the same tick.
    assert_eq!(g.enemies[0].y, 50 * 200);
    assert!(0 <= g.enemies[0].x && g.enemies[0].x < W);
    assert_eq!(g.enemy_spawn_timer, 0);
}

#[test]
fn enemy_spawn_position_is_injected() {
    let mut g = world();
    g.enemy_spawn_timer = 950;
    g.update_with(100, 123_000, 0, PowerUpType::SpeedBoost);
    assert_eq!(g.enemies, vec![Entity { x: 123_000, y: 5_000 }]);
}

#[test]
fn enemy_spawn_at_most_one_per_tick() {
    // A tick of two seconds still spawns a single enemy: no catch-up.
    let mut g = world();
    g.update_with(2_000, 200_000, 0, PowerUpType::SpeedBoost);
    assert_eq!(g.enemies, vec![Entity { x: 200_000, y: 100_000 }]);
    assert_eq!(g.enemy_spawn_timer, 0);
}

#[test]
fn enemy_spawn_below_threshold_accumulates() {
    let mut g = world();
    g.update_with(400, 0, 0, PowerUpType::SpeedBoost);
    assert!(g.enemies.is_empty());
    assert_eq!(g.enemy_spawn_timer, 400);
    g.update_with(400, 0, 0, PowerUpType::SpeedBoost);
    assert!(g.enemies.is_empty());
    assert_eq!(g.enemy_spawn_timer, 800);
    g.update_with(400, 0, 0, PowerUpType::SpeedBoost);
    assert_eq!(g.enemies.len(), 1);
    assert_eq!(g.enemy_spawn_timer, 0);
}

#[test]
fn power_up_spawn_uses_injected_draws() {
    let mut g = world();
    g.power_up_spawn_timer = 19_950;
    g.update_with(100, 0, 456_000, PowerUpType::TripleShot);
    assert_eq!(g.power_ups.len(), 1);
    assert_eq!(g.power_ups[0].x, 456_000);
    // Spawned at the top, then fell at 140 px/s for 0.1 s.
    assert_eq!(g.power_ups[0].y, 14_000);
    assert_eq!(g.power_ups[0].power_up_type, PowerUpType::TripleShot);
    assert_eq!(g.power_up_spawn_timer, 0);
}

#[test]
fn power_up_exclusivity() {
    // Two pickups in two zero-length ticks: the second type wins and the
    // timer starts over at 30 s.
    let mut g = world();
    g.player = Entity { x: 100_000, y: 100_000 };
    g.power_ups = vec![
        PowerUp { x: 100_000, y: 100_000, power_up_type: PowerUpType::SpeedBoost },
        PowerUp { x: 100_000, y: 100_000, power_up_type: PowerUpType::TripleShot },
    ];
    g.update_with(0, 0, 0, PowerUpType::SpeedBoost);
    assert_eq!(g.power_up_active, Some(PowerUpType::SpeedBoost));
    assert_eq!(g.power_up_active_timer, 30_000);
    assert_eq!(g.power_ups.len(), 1);
    g.update_with(0, 0, 0, PowerUpType::SpeedBoost);
    assert_eq!(g.power_up_active, Some(PowerUpType::TripleShot));
    assert_eq!(g.power_up_active_timer, 30_000);
    assert!(g.power_ups.is_empty());
}

#[test]
fn pickup_takes_first_in_list_order_only() {
    let mut g = world();
    g.player = Entity { x: 100_000, y: 100_000 };
    g.power_ups = vec![
        PowerUp { x: 99_000, y: 100_000, power_up_type: PowerUpType::TripleShot },
        PowerUp { x: 101_000, y: 100_000, power_up_type: PowerUpType::SpeedBoost },
    ];
    g.update_with(0, 0, 0, PowerUpType::SpeedBoost);
    // Both qualify; only the first is resolved this tick.
    assert_eq!(g.power_up_active, Some(PowerUpType::TripleShot));
    assert_eq!(g.power_ups.len(), 1);
    assert_eq!(g.power_ups[0].power_up_type, PowerUpType::SpeedBoost);
}

#[test]
fn pickup_metric_is_not_euclidean() {
    // 20 px to the left and 10 px above: Euclidean distance is about 22 px,
    // but the pickup metric dx*dy + dy*dy is negative, so nothing is picked.
    let mut g = world();
    g.player = Entity { x: 100_000, y: 100_000 };
    g.power_ups = vec![
        PowerUp { x: 80_000, y: 110_000, power_up_type: PowerUpType::SpeedBoost },
    ];
    g.update_with(0, 0, 0, PowerUpType::SpeedBoost);
    assert_eq!(g.power_up_active, None);
    assert_eq!(g.power_ups.len(), 1);
}

#[test]
fn triple_shot_scenario() {
    // TripleShot active and Space still held: one volley, key state cleared.
    let mut g = world();
    g.power_up_active = Some(PowerUpType::TripleShot);
    g.power_up_active_timer = 30_000;
    g.key_state = Some(KeyId::Space);
    g.update_with(0, 0, 0, PowerUpType::SpeedBoost);
    assert_eq!(
        g.bullets,
        vec![
            Entity { x: 390_000, y: 760_000 },
            Entity { x: 400_000, y: 760_000 },
            Entity { x: 410_000, y: 760_000 },
        ]
    );
    assert_eq!(g.key_state, None);
    assert_eq!(g.power_up_active, Some(PowerUpType::TripleShot));
    assert_eq!(g.power_up_active_timer, 30_000);
}

#[test]
fn triple_shot_only_while_space_held() {
    let mut g = world();
    g.power_up_active = Some(PowerUpType::TripleShot);
    g.power_up_active_timer = 30_000;
    g.update_with(100, 0, 0, PowerUpType::SpeedBoost);
    assert!(g.bullets.is_empty());
    assert_eq!(g.power_up_active_timer, 29_900);
}

#[test]
fn active_effect_expires() {
    let mut g = world();
    g.power_up_active = Some(PowerUpType::SpeedBoost);
    g.power_up_active_timer = 500;
    g.update_with(600, 0, 0, PowerUpType::SpeedBoost);
    assert_eq!(g.power_up_active, None);
    assert_eq!(g.power_up_active_timer, -100);
}

#[test]
fn bullets_move_twice_per_tick() {
    let mut g = world();
    g.bullets = vec![Entity { x: 100_000, y: 500_000 }];
    g.update_with(100, 0, 0, PowerUpType::SpeedBoost);
    // 300 px/s applied in two stages of the same tick: 60 pixels up.
    assert_eq!(g.bullets, vec![Entity { x: 100_000, y: 440_000 }]);
}

#[test]
fn collision_removes_both() {
    let mut g = world();
    g.bullets = vec![Entity { x: 100_000, y: 500_000 }];
    g.enemies = vec![Entity { x: 105_000, y: 500_000 }];
    g.update_with(0, 0, 0, PowerUpType::SpeedBoost);
    assert!(g.bullets.is_empty());
    assert!(g.enemies.is_empty());
}

#[test]
fn lone_bullet_survives_with_motion_only() {
    let mut g = world();
    g.bullets = vec![Entity { x: 100_000, y: 500_000 }];
    g.enemies = vec![Entity { x: 300_000, y: 500_000 }];
    g.update_with(10, 0, 0, PowerUpType::SpeedBoost);
    assert_eq!(g.bullets, vec![Entity { x: 100_000, y: 494_000 }]);
    assert_eq!(g.enemies, vec![Entity { x: 300_000, y: 500_500 }]);
}

#[test]
fn collision_boundary_is_strict() {
    // Exactly 10 px apart: not a collision.
    let mut g = world();
    g.bullets = vec![Entity { x: 100_000, y: 500_000 }];
    g.enemies = vec![Entity { x: 110_000, y: 500_000 }];
    g.update_with(0, 0, 0, PowerUpType::SpeedBoost);
    assert_eq!(g.bullets.len(), 1);
    assert_eq!(g.enemies.len(), 1);
}

#[test]
fn one_bullet_clears_a_cluster() {
    // Removal marks are sets: one bullet can take several enemies with it.
    let mut g = world();
    g.bullets = vec![Entity { x: 100_000, y: 500_000 }];
    g.enemies = vec![
        Entity { x: 103_000, y: 500_000 },
        Entity { x: 97_000, y: 500_000 },
        Entity { x: 100_000, y: 504_000 },
    ];
    g.update_with(0, 0, 0, PowerUpType::SpeedBoost);
    assert!(g.bullets.is_empty());
    assert!(g.enemies.is_empty());
}

#[test]
fn reset_scenario() {
    // Ten enemies on the ground line and nine elsewhere: the tick clears
    // bullets and enemies, recentres the player, restarts the enemy spawn
    // accumulator, and leaves the power-ups alone.
    let mut g = world();
    g.player = Entity { x: 50_000, y: 780_000 };
    g.bullets = vec![Entity { x: 1_000, y: 2_000 }];
    let mut enemies = Vec::new();
    for i in 0..10 {
        enemies.push(Entity { x: 10_000 * i, y: 780_000 });
    }
    for i in 0..9 {
        enemies.push(Entity { x: 10_000 * i, y: 100_000 });
    }
    g.enemies = enemies;
    g.enemy_spawn_timer = 700;
    g.power_ups = vec![PowerUp { x: 0, y: 100_000, power_up_type: PowerUpType::TripleShot }];
    g.update_with(0, 0, 0, PowerUpType::SpeedBoost);
    assert!(g.bullets.is_empty());
    assert!(g.enemies.is_empty());
    assert_eq!(g.player, Entity { x: 400_000, y: 780_000 });
    assert_eq!(g.enemy_spawn_timer, 0);
    assert_eq!(
        g.power_ups,
        vec![PowerUp { x: 0, y: 100_000, power_up_type: PowerUpType::TripleShot }]
    );
}

#[test]
fn nine_grounded_enemies_do_not_reset() {
    let mut g = world();
    let mut enemies = Vec::new();
    for i in 0..9 {
        enemies.push(Entity { x: 10_000 * i, y: 780_000 });
    }
    g.enemies = enemies;
    g.update_with(0, 0, 0, PowerUpType::SpeedBoost);
    assert_eq!(g.enemies.len(), 9);
}

#[test]
fn off_screen_enemies_and_power_ups_are_culled() {
    let mut g = world();
    g.enemies = vec![Entity { x: 100_000, y: 799_999 }];
    g.power_ups = vec![PowerUp { x: 700_000, y: 799_000, power_up_type: PowerUpType::SpeedBoost }];
    g.update_with(100, 0, 0, PowerUpType::SpeedBoost);
    assert!(g.enemies.is_empty());
    assert!(g.power_ups.is_empty());
}

#[test]
fn manual_reset_keeps_power_ups() {
    let mut g = world();
    g.player = Entity { x: 0, y: 0 };
    g.bullets = vec![Entity { x: 1, y: 2 }];
    g.enemies = vec![Entity { x: 3, y: 4 }];
    g.enemy_spawn_timer = 321;
    g.power_ups = vec![PowerUp { x: 5, y: 6, power_up_type: PowerUpType::SpeedBoost }];
    g.power_up_active = Some(PowerUpType::SpeedBoost);
    g.power_up_active_timer = 12_345;
    g.reset();
    assert_eq!(g.player, Entity { x: 400_000, y: 780_000 });
    assert!(g.bullets.is_empty());
    assert!(g.enemies.is_empty());
    assert_eq!(g.enemy_spawn_timer, 0);
    assert_eq!(g.power_ups.len(), 1);
    assert_eq!(g.power_up_active, Some(PowerUpType::SpeedBoost));
    assert_eq!(g.power_up_active_timer, 12_345);
}

#[test]
fn draw_lists_every_entity() {
    let mut g = world();
    g.bullets = vec![Entity { x: 100_000, y: 200_000 }];
    g.enemies = vec![Entity { x: 300_000, y: 50_000 }];
    g.power_ups = vec![PowerUp { x: 600_000, y: 70_000, power_up_type: PowerUpType::SpeedBoost }];
    let cmds = g.draw();
    assert_eq!(
        cmds,
        vec![
            DrawCmd { color: DrawColor::Player, x: 400_000, y: 770_000, width: 20_000, height: 20_000 },
            DrawCmd { color: DrawColor::Player, x: 380_000, y: 770_000, width: 20_000, height: 20_000 },
            DrawCmd { color: DrawColor::Bullet, x: 98_000, y: 190_000, width: 4_000, height: 20_000 },
            DrawCmd { color: DrawColor::Enemy, x: 290_000, y: 40_000, width: 20_000, height: 20_000 },
            DrawCmd { color: DrawColor::PowerUp, x: 590_000, y: 60_000, width: 20_000, height: 20_000 },
            DrawCmd { color: DrawColor::PowerUp, x: 610_000, y: 60_000, width: 20_000, height: 20_000 },
        ]
    );
}

#[test]
fn randomized_update_spawns_in_range() {
    // Drive the world through many randomized ticks; every spawned entity
    // stays inside the horizontal window range.
    let mut g = world();
    for _ in 0..50 {
        g.update(700);
        for e in &g.enemies {
            assert!(0 <= e.x && e.x < W);
        }
        for p in &g.power_ups {
            assert!(0 <= p.x && p.x < W);
        }
    }
}
