//! The general laws of the simulation, proved once and for all states.

use vstd::prelude::*;

use crate::model::{
    bullet_survives, enemy_survives, first_pick, first_pick_from, hit, lemma_update_wf,
    mover_speed, picks, reset_fires, sp_collide, sp_cull_enemies, sp_effect, sp_move_bullets,
    sp_move_enemies, sp_move_player, sp_move_power_ups, sp_pickup, sp_reset_check,
    sp_spawn_enemy, sp_spawn_power_up, sp_through_9, spec_update, surviving_bullets,
    surviving_enemies, EntityM, GameModel, KeyId, PowerUpType, BOOST_MS, ENEMY_SPAWN_MS,
    GROUND_MARGIN,
};

verus! {

/// Movement: in a tick that does not end in a reset, holding Left moves the
/// player left by exactly `mover_speed(s) * dt` milli-pixels, holding Right
/// moves it right by the same amount, any other key state leaves it where it
/// was, and its height never changes.  `mover_speed` is the boosted constant
/// exactly while a speed boost is active.
pub proof fn lemma_mover(s: GameModel, dt: int, ex: int, px: int, pk: PowerUpType)
    requires
        s.wf(),
        0 <= dt,
        !reset_fires(s, dt, ex, px, pk),
    ensures
        ({
            let r = spec_update(s, dt, ex, px, pk);
            &&& (s.key_state == Some(KeyId::Left) ==> r.player.x == s.player.x - mover_speed(s)
                * dt)
            &&& (s.key_state == Some(KeyId::Right) ==> r.player.x == s.player.x + mover_speed(s)
                * dt)
            &&& (s.key_state != Some(KeyId::Left) && s.key_state != Some(KeyId::Right)
                ==> r.player.x == s.player.x)
            &&& r.player.y == s.player.y
        }),
{
    let s9 = sp_through_9(s, dt, ex, px, pk);
    let s10 = sp_reset_check(s9);
    assert(s9.player == sp_move_player(s, dt).player);
    assert(s10.player == s9.player);
}

/// Spawn cadence: the enemy spawn accumulator carries the time since the
/// last spawn; the tick in which it passes the threshold appends exactly one
/// enemy at the top of the screen and restarts the accumulator, any other
/// tick appends none and only accumulates.  However large `dt` is, one tick
/// never spawns more than one enemy.
pub proof fn lemma_spawn_cadence(s: GameModel, dt: int, ex: int)
    requires
        0 <= dt,
    ensures
        ({
            let r = sp_spawn_enemy(s, dt, ex);
            &&& (s.enemy_spawn_timer + dt > ENEMY_SPAWN_MS as int ==> r.enemies
                == s.enemies.push(EntityM { x: ex, y: 0 }) && r.enemy_spawn_timer == 0)
            &&& (s.enemy_spawn_timer + dt <= ENEMY_SPAWN_MS as int ==> r.enemies == s.enemies
                && r.enemy_spawn_timer == s.enemy_spawn_timer + dt)
            &&& r.enemies.len() <= s.enemies.len() + 1
        }),
{
}

/// Spawn cadence across ticks: in a tick that does not end in a reset, the
/// accumulator leaves `spec_update` either restarted (the tick in which it
/// passed the threshold, the one that spawned) or grown by exactly `dt`, so
/// over any sequence of ticks it carries the cumulative elapsed time since
/// the last spawn.
pub proof fn lemma_spawn_timer_in_tick(s: GameModel, dt: int, ex: int, px: int, pk: PowerUpType)
    requires
        0 <= dt,
        !reset_fires(s, dt, ex, px, pk),
    ensures
        spec_update(s, dt, ex, px, pk).enemy_spawn_timer == (if s.enemy_spawn_timer + dt
            > ENEMY_SPAWN_MS as int {
            0int
        } else {
            s.enemy_spawn_timer + dt
        }),
{
    let s9 = sp_through_9(s, dt, ex, px, pk);
    assert(s9.enemy_spawn_timer == sp_spawn_enemy(sp_move_player(s, dt), dt, ex).enemy_spawn_timer);
}

proof fn lemma_first_pick_from_some(ps: Seq<crate::model::PowerUpM>, pl: EntityM, j: int, i: int)
    requires
        0 <= j <= ps.len(),
        first_pick_from(ps, pl, j) == Some(i),
    ensures
        j <= i < ps.len(),
        picks(pl, ps[i]),
    decreases ps.len() - j,
{
    if j < ps.len() && !picks(pl, ps[j]) {
        lemma_first_pick_from_some(ps, pl, j + 1, i);
    }
}

/// A tick with no elapsed time whose pickup scan finds a power-up activates
/// that power-up's effect with a full timer, whatever was active before.
pub proof fn lemma_pickup_tick(s: GameModel, ex: int, px: int, pk: PowerUpType, i: int)
    requires
        s.wf(),
        first_pick(s.power_ups, s.player) == Some(i),
    ensures
        0 <= i < s.power_ups.len(),
        spec_update(s, 0, ex, px, pk).power_up_active == Some(s.power_ups[i].kind),
        spec_update(s, 0, ex, px, pk).power_up_active_timer == BOOST_MS as int,
{
    lemma_first_pick_from_some(s.power_ups, s.player, 0, i);
    let s1 = sp_move_player(s, 0);
    let s2 = sp_spawn_enemy(s1, 0, ex);
    let s3 = sp_move_bullets(s2, 0);
    let s4 = sp_move_enemies(s3, 0);
    let s5 = sp_spawn_power_up(s4, 0, pk, px);
    let s6 = sp_move_power_ups(s5, 0);
    assert(s6.power_ups =~= s.power_ups);
    assert(s6.player == s.player);
    let s7 = sp_pickup(s6);
    assert(s7.power_up_active == Some(s.power_ups[i].kind));
    assert(s7.power_up_active_timer == BOOST_MS as int);
    let s8 = sp_effect(s7, 0);
    assert(s8.power_up_active == s7.power_up_active);
    assert(s8.power_up_active_timer == BOOST_MS as int);
}

/// Power-up exclusivity: two back-to-back pickups with no elapsed time leave
/// exactly the second power-up active, with its timer started over at a full
/// boost; the first effect is discarded, not stacked.
pub proof fn lemma_power_up_exclusive(
    s: GameModel,
    ex1: int,
    px1: int,
    pk1: PowerUpType,
    ex2: int,
    px2: int,
    pk2: PowerUpType,
    i1: int,
    i2: int,
)
    requires
        s.wf(),
        first_pick(s.power_ups, s.player) == Some(i1),
        ({
            let s1 = spec_update(s, 0, ex1, px1, pk1);
            first_pick(s1.power_ups, s1.player) == Some(i2)
        }),
    ensures
        ({
            let s1 = spec_update(s, 0, ex1, px1, pk1);
            let s2 = spec_update(s1, 0, ex2, px2, pk2);
            &&& 0 <= i1 < s.power_ups.len()
            &&& s1.power_up_active == Some(s.power_ups[i1].kind)
            &&& s1.power_up_active_timer == BOOST_MS as int
            &&& 0 <= i2 < s1.power_ups.len()
            &&& s2.power_up_active == Some(s1.power_ups[i2].kind)
            &&& s2.power_up_active_timer == BOOST_MS as int
        }),
{
    lemma_pickup_tick(s, ex1, px1, pk1, i1);
    lemma_update_wf(s, 0, ex1, px1, pk1);
    let s1 = spec_update(s, 0, ex1, px1, pk1);
    lemma_pickup_tick(s1, ex2, px2, pk2, i2);
}

proof fn lemma_surviving_bullets_elems(bs: Seq<EntityM>, es: Seq<EntityM>)
    ensures
        forall|k: int| 0 <= k < surviving_bullets(bs, es).len() ==> bullet_survives(
            #[trigger] surviving_bullets(bs, es)[k],
            es,
        ),
    decreases bs.len(),
{
    if bs.len() > 0 {
        lemma_surviving_bullets_elems(bs.drop_last(), es);
        let sub = surviving_bullets(bs.drop_last(), es);
        let out = surviving_bullets(bs, es);
        assert forall|k: int| 0 <= k < out.len() implies bullet_survives(out[k], es) by {
            if bullet_survives(bs.last(), es) {
                assert(out == sub.push(bs.last()));
                if k < sub.len() {
                    assert(out[k] == sub[k]);
                    assert(bullet_survives(sub[k], es));
                } else {
                    assert(out[k] == bs.last());
                }
            } else {
                assert(out == sub);
                assert(bullet_survives(sub[k], es));
            }
        }
    }
}

proof fn lemma_surviving_enemies_elems(es: Seq<EntityM>, bs: Seq<EntityM>)
    ensures
        forall|k: int| 0 <= k < surviving_enemies(es, bs).len() ==> enemy_survives(
            #[trigger] surviving_enemies(es, bs)[k],
            bs,
        ),
    decreases es.len(),
{
    if es.len() > 0 {
        lemma_surviving_enemies_elems(es.drop_last(), bs);
        let sub = surviving_enemies(es.drop_last(), bs);
        let out = surviving_enemies(es, bs);
        assert forall|k: int| 0 <= k < out.len() implies enemy_survives(out[k], bs) by {
            if enemy_survives(es.last(), bs) {
                assert(out == sub.push(es.last()));
                if k < sub.len() {
                    assert(out[k] == sub[k]);
                    assert(enemy_survives(sub[k], bs));
                } else {
                    assert(out[k] == es.last());
                }
            } else {
                assert(out == sub);
                assert(enemy_survives(sub[k], bs));
            }
        }
    }
}

/// Collision resolution, first half: a bullet and an enemy within collision
/// range of each other are both gone from the survivors of the same scan.
pub proof fn lemma_collision_removes_pair(bs: Seq<EntityM>, es: Seq<EntityM>, i: int, j: int)
    requires
        0 <= i < bs.len(),
        0 <= j < es.len(),
        hit(bs[i], es[j]),
    ensures
        !surviving_bullets(bs, es).contains(bs[i]),
        !surviving_enemies(es, bs).contains(es[j]),
{
    assert(!bullet_survives(bs[i], es));
    assert(!enemy_survives(es[j], bs));
    lemma_surviving_bullets_elems(bs, es);
    lemma_surviving_enemies_elems(es, bs);
    assert(!surviving_bullets(bs, es).contains(bs[i])) by {
        if surviving_bullets(bs, es).contains(bs[i]) {
            let k = choose|k: int|
                0 <= k < surviving_bullets(bs, es).len() && surviving_bullets(bs, es)[k]
                    == bs[i];
            assert(bullet_survives(surviving_bullets(bs, es)[k], es));
        }
    }
    assert(!surviving_enemies(es, bs).contains(es[j])) by {
        if surviving_enemies(es, bs).contains(es[j]) {
            let k = choose|k: int|
                0 <= k < surviving_enemies(es, bs).len() && surviving_enemies(es, bs)[k]
                    == es[j];
            assert(enemy_survives(surviving_enemies(es, bs)[k], bs));
        }
    }
}

/// Collision resolution, second half: a bullet with no enemy within range
/// comes through the scan untouched.
pub proof fn lemma_lone_bullet_survives(bs: Seq<EntityM>, es: Seq<EntityM>, i: int)
    requires
        0 <= i < bs.len(),
        bullet_survives(bs[i], es),
    ensures
        surviving_bullets(bs, es).contains(bs[i]),
    decreases bs.len(),
{
    if i == bs.len() - 1 {
        let r = surviving_bullets(bs.drop_last(), es);
        assert(surviving_bullets(bs, es) == r.push(bs[i]));
        assert(surviving_bullets(bs, es)[r.len() as int] == bs[i]);
    } else {
        assert(bs.drop_last()[i] == bs[i]);
        lemma_lone_bullet_survives(bs.drop_last(), es, i);
        let sub = surviving_bullets(bs.drop_last(), es);
        let k = choose|k: int| 0 <= k < sub.len() && sub[k] == bs[i];
        if bullet_survives(bs.last(), es) {
            assert(surviving_bullets(bs, es)[k] == bs[i]);
        } else {
            assert(surviving_bullets(bs, es) == sub);
        }
    }
}

/// Reset trigger: a tick whose ground count reaches the threshold ends with
/// no bullets and no enemies, the player back at the bottom centre, and the
/// enemy spawn accumulator at zero, while the power-ups are exactly those
/// the tick's own power-up stages produced: the reset does not touch them.
pub proof fn lemma_reset_trigger(s: GameModel, dt: int, ex: int, px: int, pk: PowerUpType)
    requires
        s.wf(),
        0 <= dt,
        reset_fires(s, dt, ex, px, pk),
    ensures
        ({
            let r = spec_update(s, dt, ex, px, pk);
            &&& r.bullets.len() == 0
            &&& r.enemies.len() == 0
            &&& r.player == (EntityM {
                x: s.window_width / 2,
                y: s.window_height - GROUND_MARGIN as int,
            })
            &&& r.enemy_spawn_timer == 0
            &&& r.power_ups == sp_through_9(s, dt, ex, px, pk).power_ups
        }),
{
    let s9 = sp_through_9(s, dt, ex, px, pk);
    let s10 = sp_reset_check(s9);
    let s11 = sp_move_bullets(s10, dt);
    assert(s11.bullets =~= Seq::<EntityM>::empty());
    let s12 = sp_cull_enemies(s11);
    assert(s12.enemies.len() == 0);
    let r = sp_collide(s12);
    assert(r.bullets.len() == 0);
    assert(r.enemies.len() == 0);
}

} // verus!
