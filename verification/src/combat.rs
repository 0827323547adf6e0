//! Combat resolution: the pairwise bullet-versus-enemy pass and the
//! single player-versus-enemy collision.

use vstd::prelude::*;

verus! {

use crate::fixed::iabs;
use crate::joystick::Vec2;
use crate::joystick::in_range;
use crate::entities::Bullet;
use crate::entities::Enemy;
use crate::entities::Explosion;

/// A bullet close enough to an enemy to strike it.
pub open spec fn hit(e: Enemy, b: Bullet) -> bool {
    let dx = b.pos.x - e.pos.x;
    let dy = b.pos.y - e.pos.y;
    dx * dx + dy * dy < (e.size + 10_000) * (e.size + 10_000)
}

/// The player close enough to an enemy to collide with it.
pub open spec fn player_hit(p: Vec2, e: Enemy) -> bool {
    let dx = p.x - e.pos.x;
    let dy = p.y - e.pos.y;
    dx * dx + dy * dy < (40_000 + e.size) * (40_000 + e.size)
}

/// One health point lost, stopping at the numeric floor.
pub open spec fn dec_i32(h: i32) -> i32 {
    if h > i32::MIN {
        (h - 1) as i32
    } else {
        h
    }
}

pub open spec fn dec_health(e: Enemy) -> Enemy {
    Enemy {
        pos: e.pos,
        velocity: e.velocity,
        facing: e.facing,
        health: dec_i32(e.health),
        size: e.size,
    }
}

/// A bullet marked for removal: its fuse is cut to zero.
pub open spec fn spent(b: Bullet) -> Bullet {
    Bullet { pos: b.pos, velocity: b.velocity, life: 0 }
}

/// The blast an enemy leaves where it died.
pub open spec fn blast_of(e: Enemy) -> Explosion {
    Explosion { pos: e.pos, life: 500, size: (2 * e.size) as i64 }
}

/// A kill is worth one hundred points, stopping at the numeric ceiling.
pub open spec fn bump_score(sc: int) -> int {
    if sc <= i32::MAX - 100 {
        sc + 100
    } else {
        sc
    }
}

/// One enemy's view of the pass: the enemy, the shared bullet pool, the
/// explosions and the score.
pub struct Skirmish {
    pub enemy: Enemy,
    pub bullets: Seq<Bullet>,
    pub explosions: Seq<Explosion>,
    pub score: int,
}

/// The skirmish after the enemy has been tested against the first `j`
/// bullets: every bullet in reach strikes, each strike costs one health
/// and spends the bullet, and only the hit that exhausts the health
/// yields the score and the blast.
pub open spec fn enemy_vs_bullets(st: Skirmish, j: nat) -> Skirmish
    decreases j,
{
    if j == 0 {
        st
    } else {
        let prev = enemy_vs_bullets(st, (j - 1) as nat);
        if j - 1 < prev.bullets.len() && hit(prev.enemy, prev.bullets[j - 1]) {
            let e2 = dec_health(prev.enemy);
            let fatal = prev.enemy.health > 0 && e2.health <= 0;
            Skirmish {
                enemy: e2,
                bullets: prev.bullets.update(j - 1, spent(prev.bullets[j - 1])),
                explosions: if fatal {
                    prev.explosions.push(blast_of(prev.enemy))
                } else {
                    prev.explosions
                },
                score: if fatal {
                    bump_score(prev.score)
                } else {
                    prev.score
                },
            }
        } else {
            prev
        }
    }
}

/// The whole pass's state.
pub struct Battle {
    pub enemies: Seq<Enemy>,
    pub bullets: Seq<Bullet>,
    pub explosions: Seq<Explosion>,
    pub score: int,
}

/// The battle after the first `i` enemies have each been run through the
/// whole bullet pool, in order.
pub open spec fn battle_pass(st: Battle, i: nat) -> Battle
    decreases i,
{
    if i == 0 {
        st
    } else {
        let prev = battle_pass(st, (i - 1) as nat);
        if i - 1 < prev.enemies.len() {
            let sk = enemy_vs_bullets(
                Skirmish {
                    enemy: prev.enemies[i - 1],
                    bullets: prev.bullets,
                    explosions: prev.explosions,
                    score: prev.score,
                },
                prev.bullets.len(),
            );
            Battle {
                enemies: prev.enemies.update(i - 1, sk.enemy),
                bullets: sk.bullets,
                explosions: sk.explosions,
                score: sk.score,
            }
        } else {
            prev
        }
    }
}

/// The survivors, in order: enemies whose health is still positive.
pub open spec fn alive_enemies(s: Seq<Enemy>) -> Seq<Enemy>
    decreases s.len(),
{
    if s.len() == 0 {
        Seq::empty()
    } else {
        let prev = alive_enemies(s.drop_last());
        if s.last().health > 0 {
            prev.push(s.last())
        } else {
            prev
        }
    }
}

/// The full resolution: the pairwise pass, then the dead leave the pool
/// in order.
pub open spec fn resolve_shots_spec(st: Battle) -> Battle {
    let full = battle_pass(st, st.enemies.len());
    Battle {
        enemies: alive_enemies(full.enemies),
        bullets: full.bullets,
        explosions: full.explosions,
        score: full.score,
    }
}

/// Every survivor is one of the scanned enemies, untouched but for its
/// health.
pub proof fn lemma_alive_members(s: Seq<Enemy>)
    ensures
        forall|k: int|
            0 <= k < alive_enemies(s).len() ==> exists|m: int|
                0 <= m < s.len() && #[trigger] alive_enemies(s)[k] == s[m] && s[m].health > 0,
    decreases s.len(),
{
    if s.len() == 0 {
    } else {
        lemma_alive_members(s.drop_last());
        let prev = alive_enemies(s.drop_last());
        let full = alive_enemies(s);
        assert forall|k: int| 0 <= k < full.len() implies exists|m: int|
            0 <= m < s.len() && #[trigger] full[k] == s[m] && s[m].health > 0 by {
            if k < prev.len() {
                let m = choose|m: int|
                    0 <= m < s.drop_last().len() && prev[k] == s.drop_last()[m] && s.drop_last()[
                        m
                    ].health > 0;
                assert(full[k] == s[m] && s[m].health > 0);
            } else {
                assert(full[k] == s[s.len() - 1]);
            }
        }
    }
}

/// Runs every (enemy, bullet) pair in pool order: each bullet within
/// reach of an enemy costs it one health and is spent; the strike that
/// exhausts an enemy's health awards one hundred points and leaves a
/// blast at the enemy's position; dead enemies then leave the pool.
pub fn resolve_shots(
    enemies: &mut Vec<Enemy>,
    bullets: &mut Vec<Bullet>,
    explosions: &mut Vec<Explosion>,
    score: &mut i32,
)
    requires
        forall|k: int|
            0 <= k < old(enemies)@.len() ==> in_range(
                (#[trigger] old(enemies)@[k]).pos,
                20_000_000,
            ) && 0 <= old(enemies)@[k].size <= 1_000_000,
        forall|k: int| 0 <= k < old(bullets)@.len() ==> in_range((#[trigger] old(bullets)@[k]).pos, 20_000_000),
    ensures
        ({
            let out = resolve_shots_spec(
                Battle {
                    enemies: old(enemies)@,
                    bullets: old(bullets)@,
                    explosions: old(explosions)@,
                    score: *old(score) as int,
                },
            );
            &&& final(enemies)@ == out.enemies
            &&& final(bullets)@ == out.bullets
            &&& final(explosions)@ == out.explosions
            &&& (*final(score) as int) == out.score
        }),
        *old(score) <= *final(score),
        final(bullets)@.len() == old(bullets)@.len(),
        forall|k: int|
            0 <= k < final(bullets)@.len() ==> {
                let nb = #[trigger] final(bullets)@[k];
                let ob = old(bullets)@[k];
                nb.pos == ob.pos && nb.velocity == ob.velocity && (nb.life == ob.life || nb.life
                    == 0)
            },
        forall|k: int|
            0 <= k < final(enemies)@.len() ==> exists|m: int|
                0 <= m < old(enemies)@.len()
                    && (#[trigger] final(enemies)@[k]).pos == (#[trigger] old(enemies)@[m]).pos
                    && final(enemies)@[k].size == old(enemies)@[m].size
                    && final(enemies)@[k].velocity == old(enemies)@[m].velocity
                    && final(enemies)@[k].facing == old(enemies)@[m].facing
                    && 0 < final(enemies)@[k].health <= old(enemies)@[m].health,
        old(explosions)@.len() <= final(explosions)@.len(),
        forall|k: int| 0 <= k < old(explosions)@.len() ==> final(explosions)@[k] == old(explosions)@[k],
        forall|k: int|
            old(explosions)@.len() <= k < final(explosions)@.len() ==> exists|m: int|
                0 <= m < old(enemies)@.len() && #[trigger] final(explosions)@[k] == (Explosion {
                    pos: old(enemies)@[m].pos,
                    life: 500,
                    size: (2 * old(enemies)@[m].size) as i64,
                }),
{
    let ghost st0 = Battle {
        enemies: enemies@,
        bullets: bullets@,
        explosions: explosions@,
        score: *score as int,
    };
    let mut i: usize = 0;
    while i < enemies.len()
        invariant
            i <= st0.enemies.len(),
            enemies@.len() == st0.enemies.len(),
            bullets@.len() == st0.bullets.len(),
            (Battle {
                enemies: enemies@,
                bullets: bullets@,
                explosions: explosions@,
                score: *score as int,
            }) == battle_pass(st0, i as nat),
            forall|k: int|
                0 <= k < st0.enemies.len() ==> in_range((#[trigger] st0.enemies[k]).pos, 20_000_000)
                    && 0 <= st0.enemies[k].size <= 1_000_000,
            forall|k: int| 0 <= k < st0.bullets.len() ==> in_range((#[trigger] st0.bullets[k]).pos, 20_000_000),
            forall|k: int|
                0 <= k < enemies@.len() ==> (#[trigger] enemies@[k]).pos == st0.enemies[k].pos
                    && enemies@[k].size == st0.enemies[k].size && enemies@[k].velocity
                    == st0.enemies[k].velocity && enemies@[k].facing == st0.enemies[k].facing
                    && enemies@[k].health <= st0.enemies[k].health,
            forall|k: int|
                0 <= k < bullets@.len() ==> (#[trigger] bullets@[k]).pos == st0.bullets[k].pos
                    && bullets@[k].velocity == st0.bullets[k].velocity && (bullets@[k].life
                    == st0.bullets[k].life || bullets@[k].life == 0),
            st0.explosions.len() <= explosions@.len(),
            forall|k: int| 0 <= k < st0.explosions.len() ==> explosions@[k] == st0.explosions[k],
            forall|k: int|
                st0.explosions.len() <= k < explosions@.len() ==> exists|m: int|
                    0 <= m < st0.enemies.len() && #[trigger] explosions@[k] == (Explosion {
                        pos: st0.enemies[m].pos,
                        life: 500,
                        size: (2 * st0.enemies[m].size) as i64,
                    }),
            st0.score <= *score as int,
        decreases st0.enemies.len() - i,
    {
        let ghost prev = battle_pass(st0, i as nat);
        let mut e: Enemy = enemies[i];
        let ghost sk0 = Skirmish {
            enemy: e,
            bullets: bullets@,
            explosions: explosions@,
            score: *score as int,
        };
        let mut j: usize = 0;
        while j < bullets.len()
            invariant
                j <= st0.bullets.len(),
                bullets@.len() == st0.bullets.len(),
                (Skirmish {
                    enemy: e,
                    bullets: bullets@,
                    explosions: explosions@,
                    score: *score as int,
                }) == enemy_vs_bullets(sk0, j as nat),
                sk0.bullets.len() == st0.bullets.len(),
                e.pos == sk0.enemy.pos,
                e.size == sk0.enemy.size,
                e.velocity == sk0.enemy.velocity,
                e.facing == sk0.enemy.facing,
                e.health <= sk0.enemy.health,
                in_range(sk0.enemy.pos, 20_000_000),
                0 <= sk0.enemy.size <= 1_000_000,
                forall|k: int|
                    0 <= k < st0.bullets.len() ==> in_range(
                        (#[trigger] st0.bullets[k]).pos,
                        20_000_000,
                    ),
                forall|k: int|
                    0 <= k < bullets@.len() ==> (#[trigger] bullets@[k]).pos == st0.bullets[k].pos
                        && bullets@[k].velocity == st0.bullets[k].velocity && (bullets@[k].life
                        == st0.bullets[k].life || bullets@[k].life == 0),
                forall|k: int|
                    0 <= k < sk0.bullets.len() ==> (#[trigger] sk0.bullets[k]).pos
                        == st0.bullets[k].pos && sk0.bullets[k].velocity
                        == st0.bullets[k].velocity,
                st0.explosions.len() <= sk0.explosions.len() <= explosions@.len(),
                forall|k: int| 0 <= k < sk0.explosions.len() ==> explosions@[k] == sk0.explosions[k],
                forall|k: int| 0 <= k < st0.explosions.len() ==> sk0.explosions[k] == st0.explosions[k],
                forall|k: int|
                    st0.explosions.len() <= k < explosions@.len() ==> exists|m: int|
                        0 <= m < st0.enemies.len() && #[trigger] explosions@[k] == (Explosion {
                            pos: st0.enemies[m].pos,
                            life: 500,
                            size: (2 * st0.enemies[m].size) as i64,
                        }),
                exists|m: int|
                    0 <= m < st0.enemies.len() && sk0.enemy.pos == (#[trigger] st0.enemies[m]).pos
                        && sk0.enemy.size == st0.enemies[m].size,
                sk0.score <= *score as int,
                st0.score <= sk0.score,
            decreases st0.bullets.len() - j,
        {
            let b = bullets[j];
            let dx: i64 = b.pos.x - e.pos.x;
            let dy: i64 = b.pos.y - e.pos.y;
            proof {
                assert(0 <= (dx as int) * (dx as int) <= 1_600_000_000_000_000int && 0 <= (
                dy as int) * (dy as int) <= 1_600_000_000_000_000int) by (nonlinear_arith)
                    requires
                        iabs(dx as int) <= 40_000_000,
                        iabs(dy as int) <= 40_000_000,
                ;
                assert(0 <= ((e.size + 10_000) as int) * ((e.size + 10_000) as int)
                    <= 1_100_000_000_000int) by (nonlinear_arith)
                    requires
                        0 <= (e.size as int) + 10_000 <= 1_010_000,
                ;
            }
            let d2: i64 = dx * dx + dy * dy;
            let rad: i64 = e.size + 10_000;
            let r2: i64 = rad * rad;
            if d2 < r2 {
                let was: i32 = e.health;
                if e.health > i32::MIN {
                    e.health = e.health - 1;
                }
                bullets.set(j, Bullet { pos: b.pos, velocity: b.velocity, life: 0 });
                if was > 0 && e.health <= 0 {
                    if *score <= i32::MAX - 100 {
                        *score = *score + 100;
                    }
                    explosions.push(Explosion { pos: e.pos, life: 500, size: 2 * e.size });
                }
            }
            proof {
                let stj = enemy_vs_bullets(sk0, (j + 1) as nat);
                assert(stj == {
                    let p2 = enemy_vs_bullets(sk0, j as nat);
                    if j < p2.bullets.len() && hit(p2.enemy, p2.bullets[j as int]) {
                        let e2 = dec_health(p2.enemy);
                        let fatal = p2.enemy.health > 0 && e2.health <= 0;
                        Skirmish {
                            enemy: e2,
                            bullets: p2.bullets.update(j as int, spent(p2.bullets[j as int])),
                            explosions: if fatal {
                                p2.explosions.push(blast_of(p2.enemy))
                            } else {
                                p2.explosions
                            },
                            score: if fatal {
                                bump_score(p2.score)
                            } else {
                                p2.score
                            },
                        }
                    } else {
                        p2
                    }
                });
            }
            j = j + 1;
        }
        enemies.set(i, e);
        proof {
            let sk = enemy_vs_bullets(
                Skirmish {
                    enemy: prev.enemies[i as int],
                    bullets: prev.bullets,
                    explosions: prev.explosions,
                    score: prev.score,
                },
                prev.bullets.len(),
            );
            assert(sk0 == Skirmish {
                enemy: prev.enemies[i as int],
                bullets: prev.bullets,
                explosions: prev.explosions,
                score: prev.score,
            });
            assert(battle_pass(st0, (i + 1) as nat) == Battle {
                enemies: prev.enemies.update(i as int, sk.enemy),
                bullets: sk.bullets,
                explosions: sk.explosions,
                score: sk.score,
            });
        }
        i = i + 1;
    }
    let ghost full = battle_pass(st0, st0.enemies.len() as nat);
    let mut out: Vec<Enemy> = Vec::new();
    let mut k: usize = 0;
    while k < enemies.len()
        invariant
            k <= enemies@.len(),
            enemies@ == full.enemies,
            out@ == alive_enemies(full.enemies.take(k as int)),
        decreases enemies@.len() - k,
    {
        let e = enemies[k];
        if e.health > 0 {
            out.push(e);
        }
        proof {
            assert(full.enemies.take(k as int + 1).drop_last() =~= full.enemies.take(k as int));
            assert(full.enemies.take(k as int + 1).last() == full.enemies[k as int]);
        }
        k = k + 1;
    }
    proof {
        assert(full.enemies.take(full.enemies.len() as int) =~= full.enemies);
        lemma_alive_members(full.enemies);
    }
    *enemies = out;
}

/// The least enemy index at or after `j` that the player overlaps, or the
/// pool's length when there is none.
pub open spec fn first_hit_from(p: Vec2, s: Seq<Enemy>, j: int) -> int
    decreases s.len() - j,
{
    if j < 0 || j >= s.len() {
        s.len() as int
    } else if player_hit(p, s[j]) {
        j
    } else {
        first_hit_from(p, s, j + 1)
    }
}

/// The first-hit scan is sound: it lands on an overlapped enemy and
/// everything before it is clear.
pub proof fn lemma_first_hit(p: Vec2, s: Seq<Enemy>, j: int)
    requires
        0 <= j <= s.len(),
    ensures
        j <= first_hit_from(p, s, j) <= s.len(),
        first_hit_from(p, s, j) < s.len() ==> player_hit(p, s[first_hit_from(p, s, j)]),
        forall|m: int| j <= m < first_hit_from(p, s, j) ==> !player_hit(p, #[trigger] s[m]),
    decreases s.len() - j,
{
    if j == s.len() {
    } else if player_hit(p, s[j]) {
    } else {
        lemma_first_hit(p, s, j + 1);
    }
}

/// Scans the pool in order and resolves at most one collision: the first
/// overlapping enemy is removed, a blast appears at its position, the
/// player loses exactly one health, and the brief post-hit safe window
/// starts. Everything else is untouched.
pub fn resolve_collision(
    enemies: &mut Vec<Enemy>,
    explosions: &mut Vec<Explosion>,
    health: &mut i32,
    safe_time: &mut i64,
    player_pos: Vec2,
)
    requires
        in_range(player_pos, 20_000_000),
        forall|k: int|
            0 <= k < old(enemies)@.len() ==> in_range(
                (#[trigger] old(enemies)@[k]).pos,
                20_000_000,
            ) && 0 <= old(enemies)@[k].size <= 1_000_000,
    ensures
        ({
            let k = first_hit_from(player_pos, old(enemies)@, 0);
            &&& (k == old(enemies)@.len() ==> final(enemies)@ == old(enemies)@
                && final(explosions)@ == old(explosions)@
                && *final(health) == *old(health)
                && *final(safe_time) == *old(safe_time))
            &&& (k < old(enemies)@.len() ==> {
                &&& player_hit(player_pos, old(enemies)@[k])
                &&& forall|m: int| 0 <= m < k ==> !player_hit(player_pos, #[trigger] old(enemies)@[m])
                &&& final(enemies)@ == old(enemies)@.remove(k)
                &&& final(explosions)@ == old(explosions)@.push(blast_of(old(enemies)@[k]))
                &&& *final(health) == dec_i32(*old(health))
                &&& *final(safe_time) == 300
            })
        }),
{
    let ghost s = enemies@;
    let n: usize = enemies.len();
    let mut idx: usize = n;
    let mut j: usize = n;
    while j > 0
        invariant
            j <= n,
            n == s.len(),
            enemies@ == s,
            in_range(player_pos, 20_000_000),
            forall|k: int|
                0 <= k < s.len() ==> in_range((#[trigger] s[k]).pos, 20_000_000) && 0 <= s[k].size
                    <= 1_000_000,
            idx as int == first_hit_from(player_pos, s, j as int),
        decreases j,
    {
        j = j - 1;
        let e = enemies[j];
        let dx: i64 = player_pos.x - e.pos.x;
        let dy: i64 = player_pos.y - e.pos.y;
        proof {
            assert(0 <= (dx as int) * (dx as int) <= 1_600_000_000_000_000int && 0 <= (dy as int)
                * (dy as int) <= 1_600_000_000_000_000int) by (nonlinear_arith)
                requires
                    iabs(dx as int) <= 40_000_000,
                    iabs(dy as int) <= 40_000_000,
            ;
            assert(0 <= ((40_000 + e.size) as int) * ((40_000 + e.size) as int)
                <= 1_100_000_000_000int) by (nonlinear_arith)
                requires
                    0 <= 40_000 + (e.size as int) <= 1_040_000,
            ;
        }
        let d2: i64 = dx * dx + dy * dy;
        let rad: i64 = 40_000 + e.size;
        if d2 < rad * rad {
            idx = j;
        }
    }
    proof {
        lemma_first_hit(player_pos, s, 0);
    }
    if idx < n {
        let e = enemies[idx];
        let _ = enemies.remove(idx);
        explosions.push(Explosion { pos: e.pos, life: 500, size: 2 * e.size });
        if *health > i32::MIN {
            *health = *health - 1;
        }
        *safe_time = 300;
    }
}

/// One bullet within reach of one enemy: the pass costs the enemy exactly
/// one health and spends the bullet; the hit that exhausts the enemy's
/// health removes it from the pool, awards exactly one hundred points and
/// leaves exactly one blast at the enemy's position.
pub proof fn lemma_single_shot(e: Enemy, b: Bullet, sc: int)
    requires
        hit(e, b),
        1 <= e.health <= 2,
        0 <= sc <= i32::MAX - 100,
    ensures
        ({
            let out = resolve_shots_spec(
                Battle {
                    enemies: seq![e],
                    bullets: seq![b],
                    explosions: Seq::empty(),
                    score: sc,
                },
            );
            &&& out.bullets =~= seq![spent(b)]
            &&& (e.health == 2 ==> out.enemies =~= seq![dec_health(e)] && out.explosions
                =~= Seq::<Explosion>::empty() && out.score == sc)
            &&& (e.health == 1 ==> out.enemies =~= Seq::<Enemy>::empty() && out.explosions
                =~= seq![blast_of(e)] && out.score == sc + 100)
        }),
{
    let st = Battle { enemies: seq![e], bullets: seq![b], explosions: Seq::empty(), score: sc };
    let sk0 = Skirmish { enemy: e, bullets: seq![b], explosions: Seq::empty(), score: sc };
    assert(battle_pass(st, 0nat) == st);
    assert(enemy_vs_bullets(sk0, 0nat) == sk0);
    let sk1 = enemy_vs_bullets(sk0, 1nat);
    assert(sk1.enemy == dec_health(e) && sk1.bullets == seq![b].update(0, spent(b)) && (
    e.health == 1 ==> sk1.explosions == Seq::<Explosion>::empty().push(blast_of(e)) && sk1.score
        == sc + 100) && (e.health == 2 ==> sk1.explosions == Seq::<Explosion>::empty()
        && sk1.score == sc));
    let full = battle_pass(st, 1nat);
    assert(full.enemies == seq![e].update(0, sk1.enemy));
    assert(seq![e].update(0, sk1.enemy) =~= seq![sk1.enemy]);
    assert(seq![b].update(0, spent(b)) =~= seq![spent(b)]);
    assert(seq![sk1.enemy].drop_last() =~= Seq::<Enemy>::empty());
    assert(alive_enemies(seq![sk1.enemy]) == if sk1.enemy.health > 0 {
        alive_enemies(Seq::<Enemy>::empty()).push(sk1.enemy)
    } else {
        alive_enemies(Seq::<Enemy>::empty())
    });
    assert(alive_enemies(Seq::<Enemy>::empty()) == Seq::<Enemy>::empty());
    if e.health == 2 {
        assert(alive_enemies(full.enemies) =~= seq![dec_health(e)]);
    } else {
        assert(sk1.enemy.health == 0);
        assert(alive_enemies(full.enemies) =~= Seq::<Enemy>::empty());
    }
}


/// After at most one collision is resolved, the pool and the blasts are
/// still well-formed.
pub proof fn lemma_collision_outcome_wf(
    prev_e: Seq<Enemy>,
    post_e: Seq<Enemy>,
    prev_x: Seq<Explosion>,
    post_x: Seq<Explosion>,
    p: Vec2,
    w: int,
    h: int,
)
    requires
        forall|i: int| 0 <= i < prev_e.len() ==> crate::entities::enemy_wf(#[trigger] prev_e[i], w, h),
        forall|i: int| 0 <= i < prev_x.len() ==> crate::entities::explosion_wf(#[trigger] prev_x[i]),
        w <= 10_000_000,
        h <= 10_000_000,
        ({
            let k = first_hit_from(p, prev_e, 0);
            ||| (post_e == prev_e && post_x == prev_x)
            ||| (0 <= k < prev_e.len() && post_e == prev_e.remove(k) && post_x == prev_x.push(
                blast_of(prev_e[k]),
            ))
        }),
    ensures
        forall|i: int| 0 <= i < post_e.len() ==> crate::entities::enemy_wf(#[trigger] post_e[i], w, h),
        forall|i: int| 0 <= i < post_x.len() ==> crate::entities::explosion_wf(#[trigger] post_x[i]),
{
    let k = first_hit_from(p, prev_e, 0);
    if post_e == prev_e && post_x == prev_x {
    } else {
        assert forall|i: int| 0 <= i < post_e.len() implies crate::entities::enemy_wf(
            #[trigger] post_e[i],
            w,
            h,
        ) by {
            if i < k {
                assert(post_e[i] == prev_e[i]);
            } else {
                assert(post_e[i] == prev_e[i + 1]);
            }
        }
        assert forall|i: int| 0 <= i < post_x.len() implies crate::entities::explosion_wf(
            #[trigger] post_x[i],
        ) by {
            if i < prev_x.len() {
                assert(post_x[i] == prev_x[i]);
            } else {
                assert(post_x[i] == blast_of(prev_e[k]));
                assert(crate::entities::enemy_wf(prev_e[k], w, h));
            }
        }
    }
}


} // verus!
