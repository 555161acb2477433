//! Mathematical model of one simulation tick.
//!
//! Every executable function of the crate is specified against the spec
//! functions of this module.  Coordinates are unbounded integers measured in
//! thousandths of a pixel; durations are integers in milliseconds, so a speed
//! of `v` pixels per second moves an entity by exactly `v * dt` milli-pixels
//! in `dt` milliseconds.

use vstd::prelude::*;

verus! {

// Speeds, in milli-pixels per millisecond (numerically pixels per second).
pub const PLAYER_SPEED: i64 = 200;
pub const PLAYER_SPEED_BOOSTED: i64 = 245;
pub const BULLET_SPEED: i64 = 300;
pub const ENEMY_SPEED: i64 = 50;
pub const POWERUP_SPEED: i64 = 140;

// Timers, in milliseconds.
pub const ENEMY_SPAWN_MS: i64 = 1000;
pub const POWERUP_SPAWN_MS: i64 = 20000;
pub const BOOST_MS: i64 = 30000;

// Geometry, in milli-pixels (and squared milli-pixels for ranges).
pub const GROUND_MARGIN: i64 = 20000;
pub const MUZZLE_OFFSET: i64 = 20000;
pub const TRIPLE_SPREAD: i64 = 10000;
pub const PICKUP_RANGE_SQ: i64 = 900_000_000;
pub const HIT_RANGE_SQ: i64 = 100_000_000;

/// Enemies standing on the ground at once that trigger a reset.
pub const MAX_ENEMIES_ON_GROUND: i64 = 10;

/// Largest time step one tick accepts, about eleven days.
pub const DT_MAX: i64 = 1_000_000_000;

/// Largest coordinate magnitude a tick accepts on entry.
pub const POS_LIMIT: i64 = 1_000_000_000_000_000;

/// More than the farthest any entity can move within one tick.
pub const DRIFT_LIMIT: i64 = 1_000_000_000_000;

/// The key identifiers the simulation distinguishes.
#[derive(Clone, Copy, PartialEq, Eq, Structural, Debug)]
pub enum KeyId {
    Left,
    Right,
    Space,
    Other,
}

/// The two pickup effects.
#[derive(Clone, Copy, PartialEq, Eq, Structural, Debug)]
pub enum PowerUpType {
    SpeedBoost,
    TripleShot,
}

/// Model of a positioned object: the player, a bullet, or an enemy.
#[verifier::ext_equal]
pub struct EntityM {
    pub x: int,
    pub y: int,
}

/// Model of a falling pickup.
#[verifier::ext_equal]
pub struct PowerUpM {
    pub x: int,
    pub y: int,
    pub kind: PowerUpType,
}

/// Model of the whole world between two ticks.
#[verifier::ext_equal]
pub struct GameModel {
    pub player: EntityM,
    pub bullets: Seq<EntityM>,
    pub enemies: Seq<EntityM>,
    pub enemy_spawn_timer: int,
    pub window_width: int,
    pub window_height: int,
    pub key_state: Option<KeyId>,
    pub power_ups: Seq<PowerUpM>,
    pub power_up_spawn_timer: int,
    pub power_up_active: Option<PowerUpType>,
    pub power_up_active_timer: int,
}

impl GameModel {
    /// Window dimensions are positive and small enough for the arithmetic.
    pub open spec fn dims_ok(self) -> bool {
        &&& 0 < self.window_width <= POS_LIMIT as int
        &&& 0 < self.window_height <= POS_LIMIT as int
    }

    /// The state invariant every tick preserves: both spawn accumulators sit
    /// below their thresholds, and an effect is active exactly while its
    /// timer is positive (and never for longer than a full boost).
    pub open spec fn wf(self) -> bool {
        &&& self.dims_ok()
        &&& 0 <= self.enemy_spawn_timer <= ENEMY_SPAWN_MS as int
        &&& 0 <= self.power_up_spawn_timer <= POWERUP_SPAWN_MS as int
        &&& (self.power_up_active.is_some() <==> self.power_up_active_timer > 0)
        &&& self.power_up_active_timer <= BOOST_MS as int
    }
}

pub open spec fn in_box(e: EntityM, m: int) -> bool {
    -m <= e.x <= m && -m <= e.y <= m
}

pub open spec fn pu_in_box(p: PowerUpM, m: int) -> bool {
    -m <= p.x <= m && -m <= p.y <= m
}

pub open spec fn ents_boxed(s: Seq<EntityM>, m: int) -> bool {
    forall|i: int| 0 <= i < s.len() ==> in_box(#[trigger] s[i], m)
}

pub open spec fn pus_boxed(s: Seq<PowerUpM>, m: int) -> bool {
    forall|i: int| 0 <= i < s.len() ==> pu_in_box(#[trigger] s[i], m)
}

/// All coordinates of the world lie within `m` milli-pixels of the origin.
pub open spec fn bounded(s: GameModel, m: int) -> bool {
    &&& in_box(s.player, m)
    &&& ents_boxed(s.bullets, m)
    &&& ents_boxed(s.enemies, m)
    &&& pus_boxed(s.power_ups, m)
}

/// The world right after construction or a reset of everything.
pub open spec fn init_model(w: int, h: int) -> GameModel {
    GameModel {
        player: EntityM { x: w / 2, y: h - GROUND_MARGIN as int },
        bullets: Seq::empty(),
        enemies: Seq::empty(),
        enemy_spawn_timer: 0,
        window_width: w,
        window_height: h,
        key_state: None,
        power_ups: Seq::empty(),
        power_up_spawn_timer: 0,
        power_up_active: None,
        power_up_active_timer: 0,
    }
}

/// Recording a key press: the single-slot key state is overwritten, and
/// pressing Space immediately fires one bullet from just above the player.
pub open spec fn sp_key_pressed(s: GameModel, key: KeyId) -> GameModel {
    let pressed = GameModel { key_state: Some(key), ..s };
    if key == KeyId::Space {
        GameModel {
            bullets: s.bullets.push(
                EntityM { x: s.player.x, y: s.player.y - MUZZLE_OFFSET as int },
            ),
            ..pressed
        }
    } else {
        pressed
    }
}

/// The speed the mover uses this tick.
pub open spec fn mover_speed(s: GameModel) -> int {
    if s.power_up_active == Some(PowerUpType::SpeedBoost) {
        PLAYER_SPEED_BOOSTED as int
    } else {
        PLAYER_SPEED as int
    }
}

/// Stage 1: horizontal player movement from the raw key state.
pub open spec fn sp_move_player(s: GameModel, dt: int) -> GameModel {
    let x = match s.key_state {
        Some(KeyId::Left) => s.player.x - mover_speed(s) * dt,
        Some(KeyId::Right) => s.player.x + mover_speed(s) * dt,
        _ => s.player.x,
    };
    GameModel { player: EntityM { x, y: s.player.y }, ..s }
}

/// Stage 2: the enemy spawn accumulator; at most one enemy per tick.
pub open spec fn sp_spawn_enemy(s: GameModel, dt: int, ex: int) -> GameModel {
    let t = s.enemy_spawn_timer + dt;
    if t > ENEMY_SPAWN_MS as int {
        GameModel {
            enemies: s.enemies.push(EntityM { x: ex, y: 0 }),
            enemy_spawn_timer: 0,
            ..s
        }
    } else {
        GameModel { enemy_spawn_timer: t, ..s }
    }
}

/// Uniform vertical translation of a column of entities.
pub open spec fn shift_seq(s: Seq<EntityM>, d: int) -> Seq<EntityM> {
    Seq::new(s.len(), |i: int| EntityM { x: s[i].x, y: s[i].y + d })
}

pub open spec fn shift_pu_seq(s: Seq<PowerUpM>, d: int) -> Seq<PowerUpM> {
    Seq::new(s.len(), |i: int| PowerUpM { x: s[i].x, y: s[i].y + d, kind: s[i].kind })
}

/// Stages 3 and 11: bullets move up.
pub open spec fn sp_move_bullets(s: GameModel, dt: int) -> GameModel {
    GameModel { bullets: shift_seq(s.bullets, -(BULLET_SPEED as int) * dt), ..s }
}

/// Stage 4: enemies move down.
pub open spec fn sp_move_enemies(s: GameModel, dt: int) -> GameModel {
    GameModel { enemies: shift_seq(s.enemies, ENEMY_SPEED as int * dt), ..s }
}

/// Stage 5: the power-up spawn accumulator; at most one pickup per tick.
pub open spec fn sp_spawn_power_up(s: GameModel, dt: int, kind: PowerUpType, px: int) -> GameModel {
    let t = s.power_up_spawn_timer + dt;
    if t > POWERUP_SPAWN_MS as int {
        GameModel {
            power_ups: s.power_ups.push(PowerUpM { x: px, y: 0, kind }),
            power_up_spawn_timer: 0,
            ..s
        }
    } else {
        GameModel { power_up_spawn_timer: t, ..s }
    }
}

/// Stage 6: power-ups move down.
pub open spec fn sp_move_power_ups(s: GameModel, dt: int) -> GameModel {
    GameModel { power_ups: shift_pu_seq(s.power_ups, POWERUP_SPEED as int * dt), ..s }
}

/// Whether the player reaches a pickup.  The metric is deliberately
/// `dx*dy + dy*dy`, not the Euclidean `dx*dx + dy*dy`; a negative value never
/// qualifies (its real square root would not be a number below the range).
pub open spec fn picks(pl: EntityM, p: PowerUpM) -> bool {
    let dx = p.x - pl.x;
    let dy = p.y - pl.y;
    let m = dx * dy + dy * dy;
    0 <= m < PICKUP_RANGE_SQ as int
}

/// Index of the first pickup in list order the player reaches, from `i` on.
pub open spec fn first_pick_from(ps: Seq<PowerUpM>, pl: EntityM, i: int) -> Option<int>
    decreases ps.len() - i when 0 <= i <= ps.len()
{
    if i >= ps.len() {
        None
    } else if picks(pl, ps[i]) {
        Some(i)
    } else {
        first_pick_from(ps, pl, i + 1)
    }
}

pub open spec fn first_pick(ps: Seq<PowerUpM>, pl: EntityM) -> Option<int> {
    first_pick_from(ps, pl, 0)
}

/// Stage 7: resolve at most one pickup; the new effect replaces any active
/// one and the effect timer starts over at a full boost.
pub open spec fn sp_pickup(s: GameModel) -> GameModel {
    match first_pick(s.power_ups, s.player) {
        None => s,
        Some(i) => GameModel {
            power_ups: s.power_ups.remove(i),
            power_up_active: Some(s.power_ups[i].kind),
            power_up_active_timer: BOOST_MS as int,
            ..s
        },
    }
}

/// The three bullets of a triple-shot volley, left to right.
pub open spec fn triple_volley(pl: EntityM) -> Seq<EntityM> {
    seq![
        EntityM { x: pl.x - TRIPLE_SPREAD as int, y: pl.y - MUZZLE_OFFSET as int },
        EntityM { x: pl.x, y: pl.y - MUZZLE_OFFSET as int },
        EntityM { x: pl.x + TRIPLE_SPREAD as int, y: pl.y - MUZZLE_OFFSET as int },
    ]
}

/// Stage 8: apply the active effect and decay its timer.  Speed boost acts
/// through `mover_speed` in stage 1; triple shot fires a volley while the key
/// state still reads Space, then clears the key state so a held key cannot
/// fire again next tick.
pub open spec fn sp_effect(s: GameModel, dt: int) -> GameModel {
    match s.power_up_active {
        None => s,
        Some(k) => {
            let fired = k == PowerUpType::TripleShot && s.key_state == Some(KeyId::Space);
            let t = s.power_up_active_timer - dt;
            GameModel {
                bullets: if fired { s.bullets + triple_volley(s.player) } else { s.bullets },
                key_state: if fired { None } else { s.key_state },
                power_up_active_timer: t,
                power_up_active: if t <= 0 { None } else { Some(k) },
                ..s
            }
        },
    }
}

/// The pickups still above the bottom edge, in their original order.
pub open spec fn cull_pu_seq(s: Seq<PowerUpM>, limit: int) -> Seq<PowerUpM>
    decreases s.len(),
{
    if s.len() == 0 {
        s
    } else {
        let r = cull_pu_seq(s.drop_last(), limit);
        if s.last().y < limit {
            r.push(s.last())
        } else {
            r
        }
    }
}

/// Stage 9: drop power-ups that fell past the bottom edge.
pub open spec fn sp_cull_power_ups(s: GameModel) -> GameModel {
    GameModel { power_ups: cull_pu_seq(s.power_ups, s.window_height), ..s }
}

/// How many entities of a column sit at or below the ground line.
pub open spec fn grounded_count(s: Seq<EntityM>, ground: int) -> int
    decreases s.len(),
{
    if s.len() == 0 {
        0
    } else {
        grounded_count(s.drop_last(), ground) + if s.last().y >= ground { 1int } else { 0int }
    }
}

/// The loss reaction: player back to the bottom centre, bullets and enemies
/// gone, the enemy spawn accumulator restarted.  Power-ups, the active
/// effect and its timer are deliberately left as they are.
pub open spec fn sp_reset(s: GameModel) -> GameModel {
    GameModel {
        player: EntityM {
            x: s.window_width / 2,
            y: s.window_height - GROUND_MARGIN as int,
        },
        bullets: Seq::empty(),
        enemies: Seq::empty(),
        enemy_spawn_timer: 0,
        ..s
    }
}

/// Stage 10: reset the world once enough enemies reach the ground.
pub open spec fn sp_reset_check(s: GameModel) -> GameModel {
    if grounded_count(s.enemies, s.window_height - GROUND_MARGIN as int)
        >= MAX_ENEMIES_ON_GROUND as int {
        sp_reset(s)
    } else {
        s
    }
}

/// The entities still above the bottom edge, in their original order.
pub open spec fn cull_seq(s: Seq<EntityM>, limit: int) -> Seq<EntityM>
    decreases s.len(),
{
    if s.len() == 0 {
        s
    } else {
        let r = cull_seq(s.drop_last(), limit);
        if s.last().y < limit {
            r.push(s.last())
        } else {
            r
        }
    }
}

/// Stage 12: drop enemies that moved past the bottom edge.
pub open spec fn sp_cull_enemies(s: GameModel) -> GameModel {
    GameModel { enemies: cull_seq(s.enemies, s.window_height), ..s }
}

/// A bullet and an enemy collide when their Euclidean distance is below ten
/// pixels.
pub open spec fn hit(b: EntityM, e: EntityM) -> bool {
    let dx = b.x - e.x;
    let dy = b.y - e.y;
    dx * dx + dy * dy < HIT_RANGE_SQ as int
}

pub open spec fn bullet_survives(b: EntityM, es: Seq<EntityM>) -> bool {
    forall|j: int| 0 <= j < es.len() ==> !hit(b, #[trigger] es[j])
}

pub open spec fn enemy_survives(e: EntityM, bs: Seq<EntityM>) -> bool {
    forall|i: int| 0 <= i < bs.len() ==> !hit(#[trigger] bs[i], e)
}

/// The bullets left after the pairwise scan, in their original order.
pub open spec fn surviving_bullets(bs: Seq<EntityM>, es: Seq<EntityM>) -> Seq<EntityM>
    decreases bs.len(),
{
    if bs.len() == 0 {
        bs
    } else {
        let r = surviving_bullets(bs.drop_last(), es);
        if bullet_survives(bs.last(), es) {
            r.push(bs.last())
        } else {
            r
        }
    }
}

/// The enemies left after the pairwise scan, in their original order.
pub open spec fn surviving_enemies(es: Seq<EntityM>, bs: Seq<EntityM>) -> Seq<EntityM>
    decreases es.len(),
{
    if es.len() == 0 {
        es
    } else {
        let r = surviving_enemies(es.drop_last(), bs);
        if enemy_survives(es.last(), bs) {
            r.push(es.last())
        } else {
            r
        }
    }
}

/// Stage 13: both removal marks are taken against the same pair of lists,
/// then each list keeps its unmarked entries.
pub open spec fn sp_collide(s: GameModel) -> GameModel {
    GameModel {
        bullets: surviving_bullets(s.bullets, s.enemies),
        enemies: surviving_enemies(s.enemies, s.bullets),
        ..s
    }
}

/// Stages 1 through 9 of a tick, before the reset decision.
pub open spec fn sp_through_9(
    s: GameModel,
    dt: int,
    ex: int,
    px: int,
    pk: PowerUpType,
) -> GameModel {
    let s1 = sp_move_player(s, dt);
    let s2 = sp_spawn_enemy(s1, dt, ex);
    let s3 = sp_move_bullets(s2, dt);
    let s4 = sp_move_enemies(s3, dt);
    let s5 = sp_spawn_power_up(s4, dt, pk, px);
    let s6 = sp_move_power_ups(s5, dt);
    let s7 = sp_pickup(s6);
    let s8 = sp_effect(s7, dt);
    sp_cull_power_ups(s8)
}

/// Whether this tick ends in a reset: the ground count is taken before the
/// tick's cleanup of off-screen enemies.
pub open spec fn reset_fires(s: GameModel, dt: int, ex: int, px: int, pk: PowerUpType) -> bool {
    let s9 = sp_through_9(s, dt, ex, px, pk);
    grounded_count(s9.enemies, s9.window_height - GROUND_MARGIN as int)
        >= MAX_ENEMIES_ON_GROUND as int
}

/// One full tick: the thirteen stages in their fixed order.  Bullets move
/// twice, in stage 3 and again in stage 11, so their effective speed is twice
/// the bullet speed constant.
pub open spec fn spec_update(
    s: GameModel,
    dt: int,
    ex: int,
    px: int,
    pk: PowerUpType,
) -> GameModel {
    let s9 = sp_through_9(s, dt, ex, px, pk);
    let s10 = sp_reset_check(s9);
    let s11 = sp_move_bullets(s10, dt);
    let s12 = sp_cull_enemies(s11);
    sp_collide(s12)
}

// Rendering geometry, in milli-pixels.
pub const TILE: i64 = 20000;
pub const HALF_TILE: i64 = 10000;
pub const BULLET_W: i64 = 4000;
pub const BULLET_HALF_W: i64 = 2000;

/// The fill colour of a rectangle handed to the renderer.
#[derive(Clone, Copy, PartialEq, Eq, Structural, Debug)]
pub enum DrawColor {
    Player,
    Bullet,
    Enemy,
    PowerUp,
}

/// Model of one draw command: a coloured axis-aligned rectangle.
#[verifier::ext_equal]
pub struct DrawCmdM {
    pub color: DrawColor,
    pub x: int,
    pub y: int,
    pub width: int,
    pub height: int,
}

/// The player renders as two adjacent squares.
pub open spec fn player_cmds(p: EntityM) -> Seq<DrawCmdM> {
    seq![
        DrawCmdM {
            color: DrawColor::Player,
            x: p.x,
            y: p.y - HALF_TILE as int,
            width: TILE as int,
            height: TILE as int,
        },
        DrawCmdM {
            color: DrawColor::Player,
            x: p.x - TILE as int,
            y: p.y - HALF_TILE as int,
            width: TILE as int,
            height: TILE as int,
        },
    ]
}

pub open spec fn bullet_cmd(b: EntityM) -> DrawCmdM {
    DrawCmdM {
        color: DrawColor::Bullet,
        x: b.x - BULLET_HALF_W as int,
        y: b.y - HALF_TILE as int,
        width: BULLET_W as int,
        height: TILE as int,
    }
}

pub open spec fn bullet_cmds(bs: Seq<EntityM>) -> Seq<DrawCmdM> {
    Seq::new(bs.len(), |i: int| bullet_cmd(bs[i]))
}

pub open spec fn enemy_cmd(e: EntityM) -> DrawCmdM {
    DrawCmdM {
        color: DrawColor::Enemy,
        x: e.x - HALF_TILE as int,
        y: e.y - HALF_TILE as int,
        width: TILE as int,
        height: TILE as int,
    }
}

pub open spec fn enemy_cmds(es: Seq<EntityM>) -> Seq<DrawCmdM> {
    Seq::new(es.len(), |i: int| enemy_cmd(es[i]))
}

/// Each pickup renders as two squares, one to each side of its position.
pub open spec fn power_up_cmd(p: PowerUpM, right: bool) -> DrawCmdM {
    DrawCmdM {
        color: DrawColor::PowerUp,
        x: if right {
            p.x + HALF_TILE as int
        } else {
            p.x - HALF_TILE as int
        },
        y: p.y - HALF_TILE as int,
        width: TILE as int,
        height: TILE as int,
    }
}

pub open spec fn power_up_cmds(ps: Seq<PowerUpM>) -> Seq<DrawCmdM> {
    Seq::new(2 * ps.len(), |i: int| power_up_cmd(ps[i / 2], i % 2 == 1))
}

/// Everything the renderer is asked to draw for a world state, in order:
/// the player, then bullets, enemies and power-ups.
pub open spec fn spec_draw(s: GameModel) -> Seq<DrawCmdM> {
    player_cmds(s.player) + bullet_cmds(s.bullets) + enemy_cmds(s.enemies)
        + power_up_cmds(s.power_ups)
}

/// One tick preserves the state invariant.
pub proof fn lemma_update_wf(s: GameModel, dt: int, ex: int, px: int, pk: PowerUpType)
    requires
        s.wf(),
        0 <= dt,
    ensures
        spec_update(s, dt, ex, px, pk).wf(),
{
    let s1 = sp_move_player(s, dt);
    let s2 = sp_spawn_enemy(s1, dt, ex);
    let s3 = sp_move_bullets(s2, dt);
    let s4 = sp_move_enemies(s3, dt);
    let s5 = sp_spawn_power_up(s4, dt, pk, px);
    let s6 = sp_move_power_ups(s5, dt);
    let s7 = sp_pickup(s6);
    let s8 = sp_effect(s7, dt);
    let s9 = sp_cull_power_ups(s8);
    let s10 = sp_reset_check(s9);
    assert(0 <= s2.enemy_spawn_timer <= ENEMY_SPAWN_MS as int);
    assert(0 <= s5.power_up_spawn_timer <= POWERUP_SPAWN_MS as int);
    assert(s7.power_up_active.is_some() <==> s7.power_up_active_timer > 0);
    assert(s7.power_up_active_timer <= BOOST_MS as int);
    assert(s8.power_up_active.is_some() <==> s8.power_up_active_timer > 0);
    assert(s8.power_up_active_timer <= BOOST_MS as int);
    assert(s10.wf());
}

pub proof fn lemma_cull_seq_push(s: Seq<EntityM>, x: EntityM, limit: int)
    ensures
        cull_seq(s.push(x), limit) == (if x.y < limit {
            cull_seq(s, limit).push(x)
        } else {
            cull_seq(s, limit)
        }),
{
    assert(s.push(x).drop_last() =~= s);
    assert(s.push(x).last() == x);
}

pub proof fn lemma_cull_pu_seq_push(s: Seq<PowerUpM>, x: PowerUpM, limit: int)
    ensures
        cull_pu_seq(s.push(x), limit) == (if x.y < limit {
            cull_pu_seq(s, limit).push(x)
        } else {
            cull_pu_seq(s, limit)
        }),
{
    assert(s.push(x).drop_last() =~= s);
    assert(s.push(x).last() == x);
}

pub proof fn lemma_grounded_push(s: Seq<EntityM>, x: EntityM, ground: int)
    ensures
        grounded_count(s.push(x), ground) == grounded_count(s, ground) + if x.y >= ground {
            1int
        } else {
            0int
        },
{
    assert(s.push(x).drop_last() =~= s);
    assert(s.push(x).last() == x);
}

pub proof fn lemma_grounded_count_range(s: Seq<EntityM>, ground: int)
    ensures
        0 <= grounded_count(s, ground) <= s.len(),
    decreases s.len(),
{
    if s.len() > 0 {
        lemma_grounded_count_range(s.drop_last(), ground);
    }
}

pub proof fn lemma_surviving_bullets_push(s: Seq<EntityM>, x: EntityM, es: Seq<EntityM>)
    ensures
        surviving_bullets(s.push(x), es) == (if bullet_survives(x, es) {
            surviving_bullets(s, es).push(x)
        } else {
            surviving_bullets(s, es)
        }),
{
    assert(s.push(x).drop_last() =~= s);
    assert(s.push(x).last() == x);
}

pub proof fn lemma_surviving_enemies_push(s: Seq<EntityM>, x: EntityM, bs: Seq<EntityM>)
    ensures
        surviving_enemies(s.push(x), bs) == (if enemy_survives(x, bs) {
            surviving_enemies(s, bs).push(x)
        } else {
            surviving_enemies(s, bs)
        }),
{
    assert(s.push(x).drop_last() =~= s);
    assert(s.push(x).last() == x);
}

pub proof fn lemma_shift_boxed(s: Seq<EntityM>, d: int, m: int, k: int)
    requires
        ents_boxed(s, m),
        -k <= d <= k,
        0 <= k,
    ensures
        ents_boxed(shift_seq(s, d), m + k),
{
    assert forall|i: int| 0 <= i < shift_seq(s, d).len() implies in_box(
        #[trigger] shift_seq(s, d)[i],
        m + k,
    ) by {
        assert(in_box(s[i], m));
    }
}

pub proof fn lemma_shift_pu_boxed(s: Seq<PowerUpM>, d: int, m: int, k: int)
    requires
        pus_boxed(s, m),
        -k <= d <= k,
        0 <= k,
    ensures
        pus_boxed(shift_pu_seq(s, d), m + k),
{
    assert forall|i: int| 0 <= i < shift_pu_seq(s, d).len() implies pu_in_box(
        #[trigger] shift_pu_seq(s, d)[i],
        m + k,
    ) by {
        assert(pu_in_box(s[i], m));
    }
}

pub proof fn lemma_boxed_widen(s: Seq<EntityM>, m1: int, m2: int)
    requires
        ents_boxed(s, m1),
        m1 <= m2,
    ensures
        ents_boxed(s, m2),
{
    assert forall|i: int| 0 <= i < s.len() implies in_box(#[trigger] s[i], m2) by {
        assert(in_box(s[i], m1));
    }
}

pub proof fn lemma_pus_boxed_widen(s: Seq<PowerUpM>, m1: int, m2: int)
    requires
        pus_boxed(s, m1),
        m1 <= m2,
    ensures
        pus_boxed(s, m2),
{
    assert forall|i: int| 0 <= i < s.len() implies pu_in_box(#[trigger] s[i], m2) by {
        assert(pu_in_box(s[i], m1));
    }
}

pub proof fn lemma_boxed_push(s: Seq<EntityM>, x: EntityM, m: int)
    requires
        ents_boxed(s, m),
        in_box(x, m),
    ensures
        ents_boxed(s.push(x), m),
{
    assert forall|i: int| 0 <= i < s.push(x).len() implies in_box(#[trigger] s.push(x)[i], m) by {
        if i < s.len() {
            assert(in_box(s[i], m));
        }
    }
}

pub proof fn lemma_pus_boxed_push(s: Seq<PowerUpM>, x: PowerUpM, m: int)
    requires
        pus_boxed(s, m),
        pu_in_box(x, m),
    ensures
        pus_boxed(s.push(x), m),
{
    assert forall|i: int| 0 <= i < s.push(x).len() implies pu_in_box(
        #[trigger] s.push(x)[i],
        m,
    ) by {
        if i < s.len() {
            assert(pu_in_box(s[i], m));
        }
    }
}

pub proof fn lemma_cull_boxed(s: Seq<EntityM>, limit: int, m: int)
    requires
        ents_boxed(s, m),
    ensures
        ents_boxed(cull_seq(s, limit), m),
    decreases s.len(),
{
    if s.len() > 0 {
        assert(ents_boxed(s.drop_last(), m)) by {
            assert forall|i: int| 0 <= i < s.drop_last().len() implies in_box(
                #[trigger] s.drop_last()[i],
                m,
            ) by {
                assert(in_box(s[i], m));
            }
        }
        lemma_cull_boxed(s.drop_last(), limit, m);
        assert(in_box(s.last(), m));
    }
}

} // verus!
