//! The executable world state and its per-tick update.

use vstd::prelude::*;

use crate::model::{
    bounded, cull_pu_seq, cull_seq, ents_boxed, first_pick, first_pick_from, grounded_count,
    in_box, init_model, mover_speed, picks, pu_in_box, pus_boxed, shift_pu_seq,
    shift_seq, sp_collide, sp_cull_enemies, sp_cull_power_ups, sp_effect, sp_key_pressed,
    sp_move_bullets, sp_move_enemies, sp_move_player, sp_move_power_ups, sp_pickup, sp_reset,
    sp_reset_check, sp_spawn_enemy, sp_spawn_power_up, spec_update,
    surviving_bullets, surviving_enemies, bullet_survives, enemy_survives, hit,
    EntityM, GameModel, KeyId, PowerUpM, PowerUpType, BOOST_MS, BULLET_SPEED, DRIFT_LIMIT,
    DT_MAX, ENEMY_SPAWN_MS, ENEMY_SPEED, GROUND_MARGIN, HIT_RANGE_SQ, MAX_ENEMIES_ON_GROUND,
    MUZZLE_OFFSET, PICKUP_RANGE_SQ, PLAYER_SPEED, PLAYER_SPEED_BOOSTED, POS_LIMIT,
    POWERUP_SPAWN_MS, POWERUP_SPEED, TRIPLE_SPREAD, bullet_cmd, bullet_cmds, enemy_cmd,
    enemy_cmds, player_cmds, power_up_cmd, power_up_cmds, spec_draw, DrawCmdM, DrawColor,
    BULLET_HALF_W, BULLET_W, HALF_TILE, TILE,
};

verus! {

/// A positioned object: the player, a bullet, or an enemy.  Coordinates are
/// milli-pixels.
#[derive(Clone, Copy, PartialEq, Eq, Structural, Debug)]
pub struct Entity {
    pub x: i64,
    pub y: i64,
}

impl View for Entity {
    type V = EntityM;

    open spec fn view(&self) -> EntityM {
        EntityM { x: self.x as int, y: self.y as int }
    }
}

/// A falling pickup.
#[derive(Clone, Copy, PartialEq, Eq, Structural, Debug)]
pub struct PowerUp {
    pub x: i64,
    pub y: i64,
    pub power_up_type: PowerUpType,
}

impl View for PowerUp {
    type V = PowerUpM;

    open spec fn view(&self) -> PowerUpM {
        PowerUpM { x: self.x as int, y: self.y as int, kind: self.power_up_type }
    }
}

pub open spec fn ent_views(s: Seq<Entity>) -> Seq<EntityM> {
    Seq::new(s.len(), |i: int| s[i]@)
}

pub open spec fn pu_views(s: Seq<PowerUp>) -> Seq<PowerUpM> {
    Seq::new(s.len(), |i: int| s[i]@)
}

/// One draw command: a coloured axis-aligned rectangle in milli-pixels.
#[derive(Clone, Copy, PartialEq, Eq, Structural, Debug)]
pub struct DrawCmd {
    pub color: DrawColor,
    pub x: i64,
    pub y: i64,
    pub width: i64,
    pub height: i64,
}

impl View for DrawCmd {
    type V = DrawCmdM;

    open spec fn view(&self) -> DrawCmdM {
        DrawCmdM {
            color: self.color,
            x: self.x as int,
            y: self.y as int,
            width: self.width as int,
            height: self.height as int,
        }
    }
}

pub open spec fn cmd_views(s: Seq<DrawCmd>) -> Seq<DrawCmdM> {
    Seq::new(s.len(), |i: int| s[i]@)
}

/// The whole world.  Fields are public so that a host or a test can build
/// any state directly; `update` asks for `wf()` of the model in return.
pub struct Game {
    pub player: Entity,
    pub bullets: Vec<Entity>,
    pub enemies: Vec<Entity>,
    pub enemy_spawn_timer: i64,
    pub window_width: i64,
    pub window_height: i64,
    pub key_state: Option<KeyId>,
    pub power_ups: Vec<PowerUp>,
    pub power_up_spawn_timer: i64,
    pub power_up_active: Option<PowerUpType>,
    pub power_up_active_timer: i64,
}

impl View for Game {
    type V = GameModel;

    open spec fn view(&self) -> GameModel {
        GameModel {
            player: self.player@,
            bullets: ent_views(self.bullets@),
            enemies: ent_views(self.enemies@),
            enemy_spawn_timer: self.enemy_spawn_timer as int,
            window_width: self.window_width as int,
            window_height: self.window_height as int,
            key_state: self.key_state,
            power_ups: pu_views(self.power_ups@),
            power_up_spawn_timer: self.power_up_spawn_timer as int,
            power_up_active: self.power_up_active,
            power_up_active_timer: self.power_up_active_timer as int,
        }
    }
}

/// Relies on rand::random::<u64>: draws a value from the thread-local
/// generator; nothing can be promised of the result.
#[verifier::external_body]
fn random_u64() -> u64 {
    rand::random::<u64>()
}

/// Relies on rand::random::<bool>: true or false, each with probability one
/// half; nothing can be promised of a single draw.
#[verifier::external_body]
fn random_bool() -> bool {
    rand::random::<bool>()
}

/// The farthest any coordinate can sit mid-tick.
pub open spec fn mid_limit() -> int {
    POS_LIMIT as int + DRIFT_LIMIT as int
}

/// Translate a column of entities vertically by `d` milli-pixels.
fn shifted_entities(v: &Vec<Entity>, d: i64) -> (out: Vec<Entity>)
    requires
        ents_boxed(ent_views(v@), mid_limit()),
        -DRIFT_LIMIT <= d <= DRIFT_LIMIT,
    ensures
        ent_views(out@) == shift_seq(ent_views(v@), d as int),
{
    let mut out: Vec<Entity> = Vec::new();
    let mut i: usize = 0;
    while i < v.len()
        invariant
            i <= v@.len(),
            ents_boxed(ent_views(v@), mid_limit()),
            -DRIFT_LIMIT <= d <= DRIFT_LIMIT,
            out@.len() == i as int,
            forall|k: int| 0 <= k < i as int ==> (#[trigger] out@[k]).x == v@[k].x
                && out@[k].y == v@[k].y + d,
        decreases v@.len() - i as int,
    {
        let e = v[i];
        proof {
            assert(in_box(ent_views(v@)[i as int], mid_limit()));
        }
        out.push(Entity { x: e.x, y: e.y + d });
        i = i + 1;
    }
    proof {
        assert(ent_views(out@) =~= shift_seq(ent_views(v@), d as int));
    }
    out
}

/// Translate the pickups vertically by `d` milli-pixels.
fn shifted_power_ups(v: &Vec<PowerUp>, d: i64) -> (out: Vec<PowerUp>)
    requires
        pus_boxed(pu_views(v@), mid_limit()),
        -DRIFT_LIMIT <= d <= DRIFT_LIMIT,
    ensures
        pu_views(out@) == shift_pu_seq(pu_views(v@), d as int),
{
    let mut out: Vec<PowerUp> = Vec::new();
    let mut i: usize = 0;
    while i < v.len()
        invariant
            i <= v@.len(),
            pus_boxed(pu_views(v@), mid_limit()),
            -DRIFT_LIMIT <= d <= DRIFT_LIMIT,
            out@.len() == i as int,
            forall|k: int| 0 <= k < i as int ==> (#[trigger] out@[k]).x == v@[k].x
                && out@[k].y == v@[k].y + d && out@[k].power_up_type == v@[k].power_up_type,
        decreases v@.len() - i as int,
    {
        let p = v[i];
        proof {
            assert(pu_in_box(pu_views(v@)[i as int], mid_limit()));
        }
        out.push(PowerUp { x: p.x, y: p.y + d, power_up_type: p.power_up_type });
        i = i + 1;
    }
    proof {
        assert(pu_views(out@) =~= shift_pu_seq(pu_views(v@), d as int));
    }
    out
}

/// Keep the entities still above `limit`, in order.
fn culled_entities(v: &Vec<Entity>, limit: i64) -> (out: Vec<Entity>)
    ensures
        ent_views(out@) == cull_seq(ent_views(v@), limit as int),
{
    let mut out: Vec<Entity> = Vec::new();
    let mut i: usize = 0;
    while i < v.len()
        invariant
            i <= v@.len(),
            ent_views(out@) == cull_seq(ent_views(v@.take(i as int)), limit as int),
        decreases v@.len() - i as int,
    {
        let e = v[i];
        proof {
            assert(ent_views(v@.take(i as int + 1)) =~= ent_views(v@.take(i as int)).push(e@));
            crate::model::lemma_cull_seq_push(ent_views(v@.take(i as int)), e@, limit as int);
        }
        if e.y < limit {
            out.push(e);
            proof {
                assert(ent_views(out@) =~= cull_seq(
                    ent_views(v@.take(i as int)),
                    limit as int,
                ).push(e@));
            }
        }
        i = i + 1;
    }
    proof {
        assert(ent_views(v@.take(v@.len() as int)) =~= ent_views(v@));
    }
    out
}

/// Keep the pickups still above `limit`, in order.
fn culled_power_ups(v: &Vec<PowerUp>, limit: i64) -> (out: Vec<PowerUp>)
    ensures
        pu_views(out@) == cull_pu_seq(pu_views(v@), limit as int),
{
    let mut out: Vec<PowerUp> = Vec::new();
    let mut i: usize = 0;
    while i < v.len()
        invariant
            i <= v@.len(),
            pu_views(out@) == cull_pu_seq(pu_views(v@.take(i as int)), limit as int),
        decreases v@.len() - i as int,
    {
        let p = v[i];
        proof {
            assert(pu_views(v@.take(i as int + 1)) =~= pu_views(v@.take(i as int)).push(p@));
            crate::model::lemma_cull_pu_seq_push(pu_views(v@.take(i as int)), p@, limit as int);
        }
        if p.y < limit {
            out.push(p);
            proof {
                assert(pu_views(out@) =~= cull_pu_seq(
                    pu_views(v@.take(i as int)),
                    limit as int,
                ).push(p@));
            }
        }
        i = i + 1;
    }
    proof {
        assert(pu_views(v@.take(v@.len() as int)) =~= pu_views(v@));
    }
    out
}

/// How many entities sit at or below the ground line.
fn count_grounded(v: &Vec<Entity>, ground: i64) -> (n: usize)
    ensures
        n as int == grounded_count(ent_views(v@), ground as int),
        n <= v@.len(),
{
    let mut n: usize = 0;
    let mut i: usize = 0;
    while i < v.len()
        invariant
            i <= v@.len(),
            n <= i,
            n as int == grounded_count(ent_views(v@.take(i as int)), ground as int),
        decreases v@.len() - i as int,
    {
        let e = v[i];
        proof {
            assert(ent_views(v@.take(i as int + 1)) =~= ent_views(v@.take(i as int)).push(e@));
            crate::model::lemma_grounded_push(ent_views(v@.take(i as int)), e@, ground as int);
        }
        if e.y >= ground {
            n = n + 1;
        }
        i = i + 1;
    }
    proof {
        assert(ent_views(v@.take(v@.len() as int)) =~= ent_views(v@));
    }
    n
}

/// Whether a bullet and an enemy are within collision range.
fn close_pair(b: &Entity, e: &Entity) -> (r: bool)
    requires
        in_box(b@, mid_limit()),
        in_box(e@, mid_limit()),
    ensures
        r == hit(b@, e@),
{
    let dx = (b.x as i128) - (e.x as i128);
    let dy = (b.y as i128) - (e.y as i128);
    proof {
        let m = mid_limit();
        assert(-2 * m <= dx as int <= 2 * m);
        assert(-2 * m <= dy as int <= 2 * m);
        assert(0 <= (dx as int) * (dx as int) <= 4 * m * m) by (nonlinear_arith)
            requires
                -2 * m <= dx as int <= 2 * m,
                m == mid_limit(),
        ;
        assert(0 <= (dy as int) * (dy as int) <= 4 * m * m) by (nonlinear_arith)
            requires
                -2 * m <= dy as int <= 2 * m,
                m == mid_limit(),
        ;
    }
    dx * dx + dy * dy < (HIT_RANGE_SQ as i128)
}

/// The bullets that no enemy is close to, in order.
fn surviving_bullets_exec(bullets: &Vec<Entity>, enemies: &Vec<Entity>) -> (out: Vec<Entity>)
    requires
        ents_boxed(ent_views(bullets@), mid_limit()),
        ents_boxed(ent_views(enemies@), mid_limit()),
    ensures
        ent_views(out@) == surviving_bullets(ent_views(bullets@), ent_views(enemies@)),
{
    let mut out: Vec<Entity> = Vec::new();
    let mut i: usize = 0;
    while i < bullets.len()
        invariant
            i <= bullets@.len(),
            ents_boxed(ent_views(bullets@), mid_limit()),
            ents_boxed(ent_views(enemies@), mid_limit()),
            ent_views(out@) == surviving_bullets(
                ent_views(bullets@.take(i as int)),
                ent_views(enemies@),
            ),
        decreases bullets@.len() - i as int,
    {
        let b = bullets[i];
        proof {
            assert(in_box(ent_views(bullets@)[i as int], mid_limit()));
        }
        let mut hit_any: bool = false;
        let mut j: usize = 0;
        while j < enemies.len()
            invariant
                j <= enemies@.len(),
                in_box(b@, mid_limit()),
                ents_boxed(ent_views(enemies@), mid_limit()),
                !hit_any ==> forall|l: int| 0 <= l < j as int
                    ==> !hit(b@, #[trigger] ent_views(enemies@)[l]),
                hit_any ==> !bullet_survives(b@, ent_views(enemies@)),
            decreases enemies@.len() - j as int,
        {
            let e = enemies[j];
            proof {
                assert(in_box(ent_views(enemies@)[j as int], mid_limit()));
            }
            if close_pair(&b, &e) {
                hit_any = true;
                proof {
                    assert(hit(b@, ent_views(enemies@)[j as int]));
                    assert(!bullet_survives(b@, ent_views(enemies@)));
                }
            }
            j = j + 1;
        }
        proof {
            if !hit_any {
                assert(bullet_survives(b@, ent_views(enemies@)));
            }
            assert(ent_views(bullets@.take(i as int + 1)) =~= ent_views(
                bullets@.take(i as int),
            ).push(b@));
            crate::model::lemma_surviving_bullets_push(
                ent_views(bullets@.take(i as int)),
                b@,
                ent_views(enemies@),
            );
        }
        if !hit_any {
            out.push(b);
        }
        i = i + 1;
    }
    proof {
        assert(ent_views(bullets@.take(bullets@.len() as int)) =~= ent_views(bullets@));
    }
    out
}

/// The enemies that no bullet is close to, in order.
fn surviving_enemies_exec(enemies: &Vec<Entity>, bullets: &Vec<Entity>) -> (out: Vec<Entity>)
    requires
        ents_boxed(ent_views(enemies@), mid_limit()),
        ents_boxed(ent_views(bullets@), mid_limit()),
    ensures
        ent_views(out@) == surviving_enemies(ent_views(enemies@), ent_views(bullets@)),
{
    let mut out: Vec<Entity> = Vec::new();
    let mut i: usize = 0;
    while i < enemies.len()
        invariant
            i <= enemies@.len(),
            ents_boxed(ent_views(enemies@), mid_limit()),
            ents_boxed(ent_views(bullets@), mid_limit()),
            ent_views(out@) == surviving_enemies(
                ent_views(enemies@.take(i as int)),
                ent_views(bullets@),
            ),
        decreases enemies@.len() - i as int,
    {
        let e = enemies[i];
        proof {
            assert(in_box(ent_views(enemies@)[i as int], mid_limit()));
        }
        let mut hit_any: bool = false;
        let mut j: usize = 0;
        while j < bullets.len()
            invariant
                j <= bullets@.len(),
                in_box(e@, mid_limit()),
                ents_boxed(ent_views(bullets@), mid_limit()),
                !hit_any ==> forall|l: int| 0 <= l < j as int
                    ==> !hit(#[trigger] ent_views(bullets@)[l], e@),
                hit_any ==> !enemy_survives(e@, ent_views(bullets@)),
            decreases bullets@.len() - j as int,
        {
            let b = bullets[j];
            proof {
                assert(in_box(ent_views(bullets@)[j as int], mid_limit()));
            }
            if close_pair(&b, &e) {
                hit_any = true;
                proof {
                    assert(hit(ent_views(bullets@)[j as int], e@));
                    assert(!enemy_survives(e@, ent_views(bullets@)));
                }
            }
            j = j + 1;
        }
        proof {
            if !hit_any {
                assert(enemy_survives(e@, ent_views(bullets@)));
            }
            assert(ent_views(enemies@.take(i as int + 1)) =~= ent_views(
                enemies@.take(i as int),
            ).push(e@));
            crate::model::lemma_surviving_enemies_push(
                ent_views(enemies@.take(i as int)),
                e@,
                ent_views(bullets@),
            );
        }
        if !hit_any {
            out.push(e);
        }
        i = i + 1;
    }
    proof {
        assert(ent_views(enemies@.take(enemies@.len() as int)) =~= ent_views(enemies@));
    }
    out
}

impl Game {
    /// A fresh world: the player at the bottom centre of a window of the
    /// given size, no entities, all timers at zero.
    pub fn new(window_width: i64, window_height: i64) -> (r: Game)
        requires
            0 < window_width <= POS_LIMIT,
            0 < window_height <= POS_LIMIT,
        ensures
            r@ == init_model(window_width as int, window_height as int),
            r@.wf(),
            bounded(r@, POS_LIMIT as int),
    {
        let r = Game {
            player: Entity { x: window_width / 2, y: window_height - GROUND_MARGIN },
            bullets: Vec::new(),
            enemies: Vec::new(),
            enemy_spawn_timer: 0,
            window_width,
            window_height,
            key_state: None,
            power_ups: Vec::new(),
            power_up_spawn_timer: 0,
            power_up_active: None,
            power_up_active_timer: 0,
        };
        proof {
            assert(r@ =~= init_model(window_width as int, window_height as int));
        }
        r
    }

    /// A key went down: remember it as the single-slot key state, and fire
    /// one bullet at once if it is Space.
    pub fn key_pressed(&mut self, key: KeyId)
        requires
            old(self).player.y >= i64::MIN + MUZZLE_OFFSET,
        ensures
            final(self)@ == sp_key_pressed(old(self)@, key),
    {
        self.key_state = Some(key);
        match key {
            KeyId::Space => {
                self.bullets.push(Entity { x: self.player.x, y: self.player.y - MUZZLE_OFFSET });
            },
            _ => {},
        }
        proof {
            assert(self@ =~= sp_key_pressed(old(self)@, key));
        }
    }

    /// A key went up: the single-slot key state is cleared, whichever key it
    /// held.
    pub fn key_released(&mut self, _key: KeyId)
        ensures
            final(self)@ == (GameModel { key_state: None, ..old(self)@ }),
    {
        self.key_state = None;
        proof {
            assert(self@ =~= GameModel { key_state: None, ..old(self)@ });
        }
    }

    /// The loss reaction: player back to the bottom centre, bullets and
    /// enemies cleared, the enemy spawn accumulator restarted.  Power-ups
    /// and the active effect stay.
    pub fn reset(&mut self)
        requires
            old(self)@.dims_ok(),
        ensures
            final(self)@ == sp_reset(old(self)@),
    {
        self.player = Entity {
            x: self.window_width / 2,
            y: self.window_height - GROUND_MARGIN,
        };
        self.bullets.clear();
        self.enemies.clear();
        self.enemy_spawn_timer = 0;
        proof {
            assert(self@ =~= sp_reset(old(self)@));
        }
    }

    /// Stage 1: player movement from the raw key state.
    fn st_move_player(&mut self, dt: i64)
        requires
            in_box(old(self)@.player, POS_LIMIT as int),
            0 <= dt <= DT_MAX,
        ensures
            final(self)@ == sp_move_player(old(self)@, dt as int),
    {
        let boosted = matches!(self.power_up_active, Some(PowerUpType::SpeedBoost));
        let step: i64 = if boosted {
            PLAYER_SPEED_BOOSTED * dt
        } else {
            PLAYER_SPEED * dt
        };
        match self.key_state {
            Some(KeyId::Left) => {
                self.player.x = self.player.x - step;
            },
            Some(KeyId::Right) => {
                self.player.x = self.player.x + step;
            },
            _ => {},
        }
        proof {
            assert(step as int == mover_speed(old(self)@) * (dt as int));
            assert(self@ =~= sp_move_player(old(self)@, dt as int));
        }
    }

    /// Stage 2: the enemy spawn accumulator.
    fn st_spawn_enemy(&mut self, dt: i64, enemy_x: i64)
        requires
            0 <= old(self)@.enemy_spawn_timer <= ENEMY_SPAWN_MS as int,
            0 <= dt <= DT_MAX,
        ensures
            final(self)@ == sp_spawn_enemy(old(self)@, dt as int, enemy_x as int),
    {
        self.enemy_spawn_timer = self.enemy_spawn_timer + dt;
        if self.enemy_spawn_timer > ENEMY_SPAWN_MS {
            self.enemies.push(Entity { x: enemy_x, y: 0 });
            self.enemy_spawn_timer = 0;
        }
        proof {
            assert(self@ =~= sp_spawn_enemy(old(self)@, dt as int, enemy_x as int));
        }
    }

    /// Stages 3 and 11: bullets move up.
    fn st_move_bullets(&mut self, dt: i64)
        requires
            ents_boxed(old(self)@.bullets, mid_limit()),
            0 <= dt <= DT_MAX,
        ensures
            final(self)@ == sp_move_bullets(old(self)@, dt as int),
    {
        let db: i64 = BULLET_SPEED * dt;
        let nb = shifted_entities(&self.bullets, -db);
        self.bullets = nb;
        proof {
            assert(self@ =~= sp_move_bullets(old(self)@, dt as int));
        }
    }

    /// Stage 4: enemies move down.
    fn st_move_enemies(&mut self, dt: i64)
        requires
            ents_boxed(old(self)@.enemies, mid_limit()),
            0 <= dt <= DT_MAX,
        ensures
            final(self)@ == sp_move_enemies(old(self)@, dt as int),
    {
        let de: i64 = ENEMY_SPEED * dt;
        let ne = shifted_entities(&self.enemies, de);
        self.enemies = ne;
        proof {
            assert(self@ =~= sp_move_enemies(old(self)@, dt as int));
        }
    }

    /// Stage 5: the power-up spawn accumulator.
    fn st_spawn_power_up(&mut self, dt: i64, power_up_x: i64, power_up_kind: PowerUpType)
        requires
            0 <= old(self)@.power_up_spawn_timer <= POWERUP_SPAWN_MS as int,
            0 <= dt <= DT_MAX,
        ensures
            final(self)@ == sp_spawn_power_up(
                old(self)@,
                dt as int,
                power_up_kind,
                power_up_x as int,
            ),
    {
        self.power_up_spawn_timer = self.power_up_spawn_timer + dt;
        if self.power_up_spawn_timer > POWERUP_SPAWN_MS {
            self.power_ups.push(PowerUp { x: power_up_x, y: 0, power_up_type: power_up_kind });
            self.power_up_spawn_timer = 0;
        }
        proof {
            assert(self@ =~= sp_spawn_power_up(
                old(self)@,
                dt as int,
                power_up_kind,
                power_up_x as int,
            ));
        }
    }

    /// Stage 6: power-ups move down.
    fn st_move_power_ups(&mut self, dt: i64)
        requires
            pus_boxed(old(self)@.power_ups, mid_limit()),
            0 <= dt <= DT_MAX,
        ensures
            final(self)@ == sp_move_power_ups(old(self)@, dt as int),
    {
        let dp: i64 = POWERUP_SPEED * dt;
        let np = shifted_power_ups(&self.power_ups, dp);
        self.power_ups = np;
        proof {
            assert(self@ =~= sp_move_power_ups(old(self)@, dt as int));
        }
    }

    /// Stage 7: resolve at most one pickup, the first in list order.
    #[verifier::rlimit(50)]
    fn st_pickup(&mut self)
        requires
            pus_boxed(old(self)@.power_ups, mid_limit()),
            in_box(old(self)@.player, mid_limit()),
        ensures
            final(self)@ == sp_pickup(old(self)@),
    {
        let ghost ps = old(self)@.power_ups;
        let ghost pl = old(self)@.player;
        let n: usize = self.power_ups.len();
        let mut pick: usize = n;
        let mut i: usize = 0;
        while i < n
            invariant
                i <= n,
                n == self.power_ups@.len(),
                pu_views(self.power_ups@) == ps,
                self.player@ == pl,
                pus_boxed(ps, mid_limit()),
                in_box(pl, mid_limit()),
                pick == n || pick < i,
                pick == n ==> first_pick_from(ps, pl, 0) == first_pick_from(ps, pl, i as int),
                pick < n ==> first_pick(ps, pl) == Some(pick as int),
            decreases n - i,
        {
            let p = self.power_ups[i];
            proof {
                assert(pu_in_box(pu_views(self.power_ups@)[i as int], mid_limit()));
            }
            if pick == n {
                let dx = (p.x as i128) - (self.player.x as i128);
                let dy = (p.y as i128) - (self.player.y as i128);
                proof {
                    let m = mid_limit();
                    assert(-2 * m <= dx as int <= 2 * m);
                    assert(-2 * m <= dy as int <= 2 * m);
                    assert(-4 * m * m <= (dx as int) * (dy as int) <= 4 * m * m)
                        by (nonlinear_arith)
                        requires
                            -2 * m <= dx as int <= 2 * m,
                            -2 * m <= dy as int <= 2 * m,
                            0 <= m,
                    ;
                    assert(0 <= (dy as int) * (dy as int) <= 4 * m * m) by (nonlinear_arith)
                        requires
                            -2 * m <= dy as int <= 2 * m,
                    ;
                }
                let mv = dx * dy + dy * dy;
                if mv >= 0 && mv < (PICKUP_RANGE_SQ as i128) {
                    pick = i;
                    proof {
                        assert(picks(pl, ps[i as int]));
                        assert(first_pick_from(ps, pl, i as int) == Some(i as int));
                    }
                } else {
                    proof {
                        assert(!picks(pl, ps[i as int]));
                    }
                }
            }
            i = i + 1;
        }
        if pick < n {
            let p = self.power_ups.remove(pick);
            self.power_up_active = Some(p.power_up_type);
            self.power_up_active_timer = BOOST_MS;
        }
        proof {
            if pick < n {
                assert(pu_views(self.power_ups@) =~= ps.remove(pick as int));
            } else {
                assert(first_pick_from(ps, pl, n as int) == None::<int>);
            }
            assert(self@ =~= sp_pickup(old(self)@));
        }
    }

    /// Stage 8: apply the active effect and decay its timer.
    fn st_effect(&mut self, dt: i64)
        requires
            old(self)@.power_up_active.is_some() ==> 0 < old(self)@.power_up_active_timer
                <= BOOST_MS as int,
            in_box(old(self)@.player, mid_limit()),
            0 <= dt <= DT_MAX,
        ensures
            final(self)@ == sp_effect(old(self)@, dt as int),
    {
        match self.power_up_active {
            None => {},
            Some(k) => {
                let fire = matches!(k, PowerUpType::TripleShot)
                    && matches!(self.key_state, Some(KeyId::Space));
                if fire {
                    let bx = self.player.x;
                    let by = self.player.y - MUZZLE_OFFSET;
                    self.bullets.push(Entity { x: bx - TRIPLE_SPREAD, y: by });
                    self.bullets.push(Entity { x: bx, y: by });
                    self.bullets.push(Entity { x: bx + TRIPLE_SPREAD, y: by });
                    self.key_state = None;
                }
                self.power_up_active_timer = self.power_up_active_timer - dt;
                if self.power_up_active_timer <= 0 {
                    self.power_up_active = None;
                }
            },
        }
        proof {
            assert(self@ =~= sp_effect(old(self)@, dt as int));
        }
    }

    /// Stage 9: drop power-ups past the bottom edge.
    fn st_cull_power_ups(&mut self)
        ensures
            final(self)@ == sp_cull_power_ups(old(self)@),
    {
        let np = culled_power_ups(&self.power_ups, self.window_height);
        self.power_ups = np;
        proof {
            assert(self@ =~= sp_cull_power_ups(old(self)@));
        }
    }

    /// Stage 10: reset once enough enemies reached the ground.
    fn st_reset_check(&mut self)
        requires
            old(self)@.dims_ok(),
        ensures
            final(self)@ == sp_reset_check(old(self)@),
    {
        let ground = self.window_height - GROUND_MARGIN;
        let n_grounded = count_grounded(&self.enemies, ground);
        if n_grounded >= (MAX_ENEMIES_ON_GROUND as usize) {
            self.reset();
        }
        proof {
            assert(self@ =~= sp_reset_check(old(self)@));
        }
    }

    /// Stage 12: drop enemies past the bottom edge.
    fn st_cull_enemies(&mut self)
        ensures
            final(self)@ == sp_cull_enemies(old(self)@),
    {
        let ne = culled_entities(&self.enemies, self.window_height);
        self.enemies = ne;
        proof {
            assert(self@ =~= sp_cull_enemies(old(self)@));
        }
    }

    /// Stage 13: both removal marks are taken against the same pair of
    /// lists, then each list keeps its unmarked entries.
    fn st_collide(&mut self)
        requires
            ents_boxed(old(self)@.bullets, mid_limit()),
            ents_boxed(old(self)@.enemies, mid_limit()),
        ensures
            final(self)@ == sp_collide(old(self)@),
    {
        let nb = surviving_bullets_exec(&self.bullets, &self.enemies);
        let ne = surviving_enemies_exec(&self.enemies, &self.bullets);
        self.bullets = nb;
        self.enemies = ne;
        proof {
            assert(self@ =~= sp_collide(old(self)@));
        }
    }

    /// One tick of the simulation with the random draws handed in: the
    /// thirteen stages of `spec_update`, in their fixed order.  `enemy_x` and
    /// `power_up_x` are the horizontal positions a spawn of this tick uses,
    /// and `power_up_kind` the kind of a power-up spawned this tick; they are
    /// ignored when the matching accumulator does not fire.
    #[verifier::rlimit(100)]
    #[verifier::spinoff_prover]
    pub fn update_with(
        &mut self,
        dt: i64,
        enemy_x: i64,
        power_up_x: i64,
        power_up_kind: PowerUpType,
    )
        requires
            old(self)@.wf(),
            bounded(old(self)@, POS_LIMIT as int),
            0 <= dt <= DT_MAX,
            0 <= enemy_x < old(self).window_width,
            0 <= power_up_x < old(self).window_width,
        ensures
            final(self)@ == spec_update(
                old(self)@,
                dt as int,
                enemy_x as int,
                power_up_x as int,
                power_up_kind,
            ),
            final(self)@.wf(),
    {
        let ghost s0 = self@;
        self.st_move_player(dt);
        let ghost s1 = self@;
        proof {
            assert(mover_speed(s0) == PLAYER_SPEED as int
                || mover_speed(s0) == PLAYER_SPEED_BOOSTED as int);
            assert(in_box(s1.player, POS_LIMIT as int + 245_000_000_000));
        }
        self.st_spawn_enemy(dt, enemy_x);
        let ghost s2 = self@;
        proof {
            if s1.enemy_spawn_timer + dt as int > ENEMY_SPAWN_MS as int {
                crate::model::lemma_boxed_push(
                    s1.enemies,
                    EntityM { x: enemy_x as int, y: 0 },
                    POS_LIMIT as int,
                );
            }
            assert(ents_boxed(s2.enemies, POS_LIMIT as int));
            crate::model::lemma_boxed_widen(s2.bullets, POS_LIMIT as int, mid_limit());
        }
        self.st_move_bullets(dt);
        let ghost s3 = self@;
        proof {
            crate::model::lemma_shift_boxed(
                s2.bullets,
                -(BULLET_SPEED as int) * (dt as int),
                POS_LIMIT as int,
                300_000_000_000,
            );
            assert(ents_boxed(s3.bullets, POS_LIMIT as int + 300_000_000_000));
            crate::model::lemma_boxed_widen(s3.enemies, POS_LIMIT as int, mid_limit());
        }
        self.st_move_enemies(dt);
        let ghost s4 = self@;
        proof {
            crate::model::lemma_shift_boxed(
                s3.enemies,
                ENEMY_SPEED as int * (dt as int),
                POS_LIMIT as int,
                50_000_000_000,
            );
            assert(ents_boxed(s4.enemies, POS_LIMIT as int + 50_000_000_000));
        }
        self.st_spawn_power_up(dt, power_up_x, power_up_kind);
        let ghost s5 = self@;
        proof {
            if s4.power_up_spawn_timer + dt as int > POWERUP_SPAWN_MS as int {
                crate::model::lemma_pus_boxed_push(
                    s4.power_ups,
                    PowerUpM { x: power_up_x as int, y: 0, kind: power_up_kind },
                    POS_LIMIT as int,
                );
            }
            assert(pus_boxed(s5.power_ups, POS_LIMIT as int));
            crate::model::lemma_pus_boxed_widen(s5.power_ups, POS_LIMIT as int, mid_limit());
        }
        self.st_move_power_ups(dt);
        let ghost s6 = self@;
        proof {
            crate::model::lemma_shift_pu_boxed(
                s5.power_ups,
                POWERUP_SPEED as int * (dt as int),
                POS_LIMIT as int,
                140_000_000_000,
            );
            crate::model::lemma_pus_boxed_widen(
                s6.power_ups,
                POS_LIMIT as int + 140_000_000_000,
                mid_limit(),
            );
            assert(in_box(s6.player, mid_limit()));
        }
        self.st_pickup();
        let ghost s7 = self@;
        proof {
            assert(s6.power_up_active == s0.power_up_active);
            assert(s6.power_up_active_timer == s0.power_up_active_timer);
            assert(s7.power_up_active.is_some() ==> 0 < s7.power_up_active_timer
                <= BOOST_MS as int);
            assert(in_box(s7.player, mid_limit()));
        }
        self.st_effect(dt);
        let ghost s8 = self@;
        proof {
            assert forall|q: int| 0 <= q < s8.bullets.len() implies in_box(
                #[trigger] s8.bullets[q],
                POS_LIMIT as int + 300_000_000_000,
            ) by {
                if q < s7.bullets.len() {
                    assert(s8.bullets[q] == s7.bullets[q]);
                    assert(in_box(s7.bullets[q], POS_LIMIT as int + 300_000_000_000));
                }
            }
        }
        self.st_cull_power_ups();
        let ghost s9 = self@;
        self.st_reset_check();
        let ghost s10 = self@;
        proof {
            assert(ents_boxed(s10.bullets, POS_LIMIT as int + 300_000_000_000));
            assert(ents_boxed(s10.enemies, POS_LIMIT as int + 50_000_000_000));
            crate::model::lemma_boxed_widen(
                s10.bullets,
                POS_LIMIT as int + 300_000_000_000,
                mid_limit(),
            );
        }
        self.st_move_bullets(dt);
        let ghost s11 = self@;
        proof {
            crate::model::lemma_shift_boxed(
                s10.bullets,
                -(BULLET_SPEED as int) * (dt as int),
                POS_LIMIT as int + 300_000_000_000,
                300_000_000_000,
            );
            crate::model::lemma_boxed_widen(
                s11.bullets,
                POS_LIMIT as int + 600_000_000_000,
                mid_limit(),
            );
        }
        self.st_cull_enemies();
        let ghost s12 = self@;
        proof {
            crate::model::lemma_cull_boxed(
                s11.enemies,
                s11.window_height,
                POS_LIMIT as int + 50_000_000_000,
            );
            crate::model::lemma_boxed_widen(
                s12.enemies,
                POS_LIMIT as int + 50_000_000_000,
                mid_limit(),
            );
        }
        self.st_collide();
        proof {
            assert(self@ == spec_update(
                s0,
                dt as int,
                enemy_x as int,
                power_up_x as int,
                power_up_kind,
            ));
            crate::model::lemma_update_wf(
                s0,
                dt as int,
                enemy_x as int,
                power_up_x as int,
                power_up_kind,
            );
        }
    }

    /// One tick with the random draws taken from the thread-local generator:
    /// the spawn positions are drawn over the window width and the spawned
    /// power-up kind is either of the two.  Whatever the generator returned,
    /// the new state is `spec_update` of the old for some in-range draws.
    pub fn update(&mut self, dt: i64)
        requires
            old(self)@.wf(),
            bounded(old(self)@, POS_LIMIT as int),
            0 <= dt <= DT_MAX,
        ensures
            final(self)@.wf(),
            exists|ex: int, px: int, k: PowerUpType|
                0 <= ex < old(self)@.window_width && 0 <= px < old(self)@.window_width
                    && final(self)@ == spec_update(old(self)@, dt as int, ex, px, k),
    {
        let ghost s0 = self@;
        let w = self.window_width as u64;
        let r1 = random_u64();
        let enemy_x = (r1 % w) as i64;
        let r2 = random_u64();
        let power_up_x = (r2 % w) as i64;
        let kind = if random_bool() {
            PowerUpType::TripleShot
        } else {
            PowerUpType::SpeedBoost
        };
        proof {
            assert(w as int == s0.window_width);
            assert(0 <= enemy_x < self.window_width);
            assert(0 <= power_up_x < self.window_width);
        }
        self.update_with(dt, enemy_x, power_up_x, kind);
        proof {
            let gex = enemy_x as int;
            let gpx = power_up_x as int;
            assert(0 <= gex < s0.window_width);
            assert(0 <= gpx < s0.window_width);
            assert(self@ == spec_update(s0, dt as int, gex, gpx, kind));
        }
    }

    /// The draw list for the current state: the player's two squares, then a
    /// bar per bullet, a square per enemy and two squares per power-up.
    pub fn draw(&self) -> (cmds: Vec<DrawCmd>)
        requires
            bounded(self@, mid_limit()),
        ensures
            cmd_views(cmds@) == spec_draw(self@),
    {
        let mut cmds: Vec<DrawCmd> = Vec::new();
        cmds.push(DrawCmd {
            color: DrawColor::Player,
            x: self.player.x,
            y: self.player.y - HALF_TILE,
            width: TILE,
            height: TILE,
        });
        cmds.push(DrawCmd {
            color: DrawColor::Player,
            x: self.player.x - TILE,
            y: self.player.y - HALF_TILE,
            width: TILE,
            height: TILE,
        });
        let ghost prefix1 = player_cmds(self@.player);
        proof {
            assert(cmd_views(cmds@) =~= prefix1);
        }
        let mut i: usize = 0;
        while i < self.bullets.len()
            invariant
                i <= self.bullets@.len(),
                ents_boxed(ent_views(self.bullets@), mid_limit()),
                prefix1 == player_cmds(self@.player),
                cmd_views(cmds@) == prefix1 + bullet_cmds(ent_views(self.bullets@).take(i as int)),
            decreases self.bullets@.len() - i as int,
        {
            let b = self.bullets[i];
            proof {
                assert(in_box(ent_views(self.bullets@)[i as int], mid_limit()));
            }
            cmds.push(DrawCmd {
                color: DrawColor::Bullet,
                x: b.x - BULLET_HALF_W,
                y: b.y - HALF_TILE,
                width: BULLET_W,
                height: TILE,
            });
            proof {
                let bs = ent_views(self.bullets@);
                let c = bullet_cmd(bs[i as int]);
                assert(bullet_cmds(bs.take(i as int + 1)) =~= bullet_cmds(
                    bs.take(i as int),
                ).push(c));
                assert(prefix1 + bullet_cmds(bs.take(i as int)).push(c) =~= (prefix1
                    + bullet_cmds(bs.take(i as int))).push(c));
                assert(cmd_views(cmds@) =~= (prefix1 + bullet_cmds(bs.take(i as int))).push(c));
                assert(cmd_views(cmds@) =~= prefix1 + bullet_cmds(bs.take(i as int + 1)));
            }
            i = i + 1;
        }
        let ghost prefix2 = prefix1 + bullet_cmds(ent_views(self.bullets@));
        proof {
            assert(ent_views(self.bullets@).take(self.bullets@.len() as int) =~= ent_views(
                self.bullets@,
            ));
            assert(cmd_views(cmds@) == prefix2);
        }
        let mut j: usize = 0;
        while j < self.enemies.len()
            invariant
                j <= self.enemies@.len(),
                ents_boxed(ent_views(self.enemies@), mid_limit()),
                prefix2 == player_cmds(self@.player) + bullet_cmds(ent_views(self.bullets@)),
                cmd_views(cmds@) == prefix2 + enemy_cmds(ent_views(self.enemies@).take(j as int)),
            decreases self.enemies@.len() - j as int,
        {
            let e = self.enemies[j];
            proof {
                assert(in_box(ent_views(self.enemies@)[j as int], mid_limit()));
            }
            cmds.push(DrawCmd {
                color: DrawColor::Enemy,
                x: e.x - HALF_TILE,
                y: e.y - HALF_TILE,
                width: TILE,
                height: TILE,
            });
            proof {
                let es = ent_views(self.enemies@);
                let c = enemy_cmd(es[j as int]);
                assert(enemy_cmds(es.take(j as int + 1)) =~= enemy_cmds(es.take(j as int)).push(c));
                assert(prefix2 + enemy_cmds(es.take(j as int)).push(c) =~= (prefix2
                    + enemy_cmds(es.take(j as int))).push(c));
                assert(cmd_views(cmds@) =~= (prefix2 + enemy_cmds(es.take(j as int))).push(c));
                assert(cmd_views(cmds@) =~= prefix2 + enemy_cmds(es.take(j as int + 1)));
            }
            j = j + 1;
        }
        let ghost prefix3 = prefix2 + enemy_cmds(ent_views(self.enemies@));
        proof {
            assert(ent_views(self.enemies@).take(self.enemies@.len() as int) =~= ent_views(
                self.enemies@,
            ));
            assert(cmd_views(cmds@) == prefix3);
        }
        let mut q: usize = 0;
        while q < self.power_ups.len()
            invariant
                q <= self.power_ups@.len(),
                pus_boxed(pu_views(self.power_ups@), mid_limit()),
                prefix3 == player_cmds(self@.player) + bullet_cmds(ent_views(self.bullets@))
                    + enemy_cmds(ent_views(self.enemies@)),
                cmd_views(cmds@) == prefix3 + power_up_cmds(
                    pu_views(self.power_ups@).take(q as int),
                ),
            decreases self.power_ups@.len() - q as int,
        {
            let p = self.power_ups[q];
            proof {
                assert(pu_in_box(pu_views(self.power_ups@)[q as int], mid_limit()));
            }
            cmds.push(DrawCmd {
                color: DrawColor::PowerUp,
                x: p.x - HALF_TILE,
                y: p.y - HALF_TILE,
                width: TILE,
                height: TILE,
            });
            cmds.push(DrawCmd {
                color: DrawColor::PowerUp,
                x: p.x + HALF_TILE,
                y: p.y - HALF_TILE,
                width: TILE,
                height: TILE,
            });
            proof {
                let ps = pu_views(self.power_ups@);
                let cl = power_up_cmd(ps[q as int], false);
                let cr = power_up_cmd(ps[q as int], true);
                assert(power_up_cmds(ps.take(q as int + 1)) =~= power_up_cmds(
                    ps.take(q as int),
                ).push(cl).push(cr));
                assert(prefix3 + power_up_cmds(ps.take(q as int)).push(cl).push(cr) =~= (prefix3
                    + power_up_cmds(ps.take(q as int))).push(cl).push(cr));
                assert(cmd_views(cmds@) =~= (prefix3 + power_up_cmds(
                    ps.take(q as int),
                )).push(cl).push(cr));
                assert(cmd_views(cmds@) =~= prefix3 + power_up_cmds(ps.take(q as int + 1)));
            }
            q = q + 1;
        }
        proof {
            assert(pu_views(self.power_ups@).take(self.power_ups@.len() as int) =~= pu_views(
                self.power_ups@,
            ));
            assert(cmd_views(cmds@) =~= spec_draw(self@));
        }
        cmds
    }
}

} // verus!
