use vstd::prelude::*;
use crate::geometry::{collide, collide_spec, reflect, reflect_spec, velocity_ok, Collision, Vec2i};
use crate::scoreboard::Scoreboard;
use crate::team::Team;

verus! {

/// A moving ball that claims tiles for its team.
#[derive(Clone, Copy, Debug, PartialEq, Eq, Structural)]
pub struct Ball {
    pub team: Team,
    pub pos: Vec2i,
    pub size: Vec2i,
    pub vel: Vec2i,
}

/// A grid cell owned by one team.
#[derive(Clone, Copy, Debug, PartialEq, Eq, Structural)]
pub struct Tile {
    pub owner: Team,
    pub pos: Vec2i,
    pub size: Vec2i,
}

/// A fixed obstacle that bounds the balls' motion.
#[derive(Clone, Copy, Debug, PartialEq, Eq, Structural)]
pub struct Wall {
    pub pos: Vec2i,
    pub size: Vec2i,
}

/// The face of tile `t` that ball `b` strikes; a tile of the ball's own team is no
/// obstacle to it.
pub open spec fn tile_contact(b: Ball, t: Tile) -> Option<Collision> {
    if t.owner == b.team {
        None
    } else {
        collide_spec(b.pos, b.size, t.pos, t.size)
    }
}

/// The face of wall `w` that ball `b` strikes.
pub open spec fn wall_contact(b: Ball, w: Wall) -> Option<Collision> {
    collide_spec(b.pos, b.size, w.pos, w.size)
}

/// Tile `t` after ball `b` has been tested against it: struck, it passes to the ball's team.
pub open spec fn tile_after(b: Ball, t: Tile) -> Tile {
    if tile_contact(b, t) is Some {
        Tile { owner: b.team, ..t }
    } else {
        t
    }
}

/// Velocity `v` after ball `b` has been tested against `tiles` in order.
pub open spec fn bounce_tiles(v: Vec2i, b: Ball, tiles: Seq<Tile>) -> Vec2i
    decreases tiles.len(),
{
    if tiles.len() == 0 {
        v
    } else {
        reflect_spec(bounce_tiles(v, b, tiles.drop_last()), tile_contact(b, tiles.last()))
    }
}

/// Velocity `v` after ball `b` has been tested against `walls` in order.
pub open spec fn bounce_walls(v: Vec2i, b: Ball, walls: Seq<Wall>) -> Vec2i
    decreases walls.len(),
{
    if walls.len() == 0 {
        v
    } else {
        reflect_spec(bounce_walls(v, b, walls.drop_last()), wall_contact(b, walls.last()))
    }
}

/// Ball `b` after it has been tested against every tile and then every wall.
pub open spec fn ball_after(b: Ball, tiles: Seq<Tile>, walls: Seq<Wall>) -> Ball {
    Ball { vel: bounce_walls(bounce_tiles(b.vel, b, tiles), b, walls), ..b }
}

/// The tiles after ball `b` has been tested against each of them.
pub open spec fn claim(b: Ball, tiles: Seq<Tile>) -> Seq<Tile> {
    tiles.map_values(|t: Tile| tile_after(b, t))
}

/// The tiles after each of `balls` in turn has been tested against them.
pub open spec fn claim_all(balls: Seq<Ball>, tiles: Seq<Tile>) -> Seq<Tile>
    decreases balls.len(),
{
    if balls.len() == 0 {
        tiles
    } else {
        claim(balls.last(), claim_all(balls.drop_last(), tiles))
    }
}

/// Ball `i` of `balls` after the collision pass: it meets the tiles as the balls before
/// it left them.
pub open spec fn resolved_ball(balls: Seq<Ball>, i: int, tiles: Seq<Tile>, walls: Seq<Wall>) -> Ball {
    ball_after(balls[i], claim_all(balls.take(i), tiles), walls)
}

/// The number of tiles that `team` owns.
pub open spec fn count_owned(tiles: Seq<Tile>, team: Team) -> nat
    decreases tiles.len(),
{
    if tiles.len() == 0 {
        0
    } else {
        count_owned(tiles.drop_last(), team) + if tiles.last().owner == team {
            1nat
        } else {
            0nat
        }
    }
}

/// The scoreboard counts exactly the tiles that each team owns.
pub open spec fn counts_match(tiles: Seq<Tile>, sb: Scoreboard) -> bool {
    &&& tiles.len() <= i64::MAX
    &&& sb.tiles_a == count_owned(tiles, Team::A)
    &&& sb.tiles_b == count_owned(tiles, Team::B)
}

/// Every tile belongs to exactly one of the two teams.
pub proof fn lemma_count_total(tiles: Seq<Tile>)
    ensures
        count_owned(tiles, Team::A) + count_owned(tiles, Team::B) == tiles.len(),
    decreases tiles.len(),
{
    if tiles.len() > 0 {
        lemma_count_total(tiles.drop_last());
    }
}

/// Replacing one tile changes each count by what the old and the new tile contribute.
pub proof fn lemma_count_update(tiles: Seq<Tile>, j: int, t: Tile, team: Team)
    requires
        0 <= j < tiles.len(),
    ensures
        count_owned(tiles.update(j, t), team) + (if tiles[j].owner == team {
            1int
        } else {
            0int
        }) == count_owned(tiles, team) + (if t.owner == team {
            1int
        } else {
            0int
        }),
    decreases tiles.len(),
{
    let u = tiles.update(j, t);
    if j == tiles.len() - 1 {
        assert(u.drop_last() =~= tiles.drop_last());
    } else {
        assert(u.drop_last() =~= tiles.drop_last().update(j, t));
        lemma_count_update(tiles.drop_last(), j, t, team);
    }
}

/// Appending one tile adds its owner's share.
pub proof fn lemma_count_push(tiles: Seq<Tile>, t: Tile, team: Team)
    ensures
        count_owned(tiles.push(t), team) == count_owned(tiles, team) + (if t.owner == team {
            1int
        } else {
            0int
        }),
{
    assert(tiles.push(t).drop_last() =~= tiles);
}

/// The collision pass changes no speed: every reflection only flips signs.
pub proof fn lemma_bounce_tiles_keeps_speed(v: Vec2i, b: Ball, tiles: Seq<Tile>)
    requires
        velocity_ok(v),
    ensures
        velocity_ok(bounce_tiles(v, b, tiles)),
        bounce_tiles(v, b, tiles).len_sq() == v.len_sq(),
    decreases tiles.len(),
{
    if tiles.len() > 0 {
        lemma_bounce_tiles_keeps_speed(v, b, tiles.drop_last());
        crate::geometry::lemma_reflect_keeps_speed(
            bounce_tiles(v, b, tiles.drop_last()),
            tile_contact(b, tiles.last()),
        );
    }
}

/// Testing against walls changes no speed either.
pub proof fn lemma_bounce_walls_keeps_speed(v: Vec2i, b: Ball, walls: Seq<Wall>)
    requires
        velocity_ok(v),
    ensures
        velocity_ok(bounce_walls(v, b, walls)),
        bounce_walls(v, b, walls).len_sq() == v.len_sq(),
    decreases walls.len(),
{
    if walls.len() > 0 {
        lemma_bounce_walls_keeps_speed(v, b, walls.drop_last());
        crate::geometry::lemma_reflect_keeps_speed(
            bounce_walls(v, b, walls.drop_last()),
            wall_contact(b, walls.last()),
        );
    }
}

/// A ball's speed after the collision pass equals its speed before it.
pub proof fn lemma_resolution_keeps_speed(b: Ball, tiles: Seq<Tile>, walls: Seq<Wall>)
    requires
        velocity_ok(b.vel),
    ensures
        velocity_ok(ball_after(b, tiles, walls).vel),
        ball_after(b, tiles, walls).vel.len_sq() == b.vel.len_sq(),
        ball_after(b, tiles, walls).pos == b.pos,
        ball_after(b, tiles, walls).team == b.team,
{
    lemma_bounce_tiles_keeps_speed(b.vel, b, tiles);
    lemma_bounce_walls_keeps_speed(bounce_tiles(b.vel, b, tiles), b, walls);
}

/// Tests ball `b`, moving at `v`, against tile `j`: a struck opposing tile passes to the
/// ball's team and the scoreboard moves one tile across; the velocity is reflected off
/// the struck face.
pub fn hit_tile(tiles: &mut Vec<Tile>, sb: &mut Scoreboard, b: &Ball, v: Vec2i, j: usize) -> (r: Vec2i)
    requires
        j < old(tiles)@.len(),
        counts_match(old(tiles)@, *old(sb)),
        velocity_ok(v),
    ensures
        final(tiles)@ == old(tiles)@.update(j as int, tile_after(*b, old(tiles)@[j as int])),
        counts_match(final(tiles)@, *final(sb)),
        r == reflect_spec(v, tile_contact(*b, old(tiles)@[j as int])),
        velocity_ok(r),
{
    let t = tiles[j];
    if t.owner == b.team {
        proof {
            assert(old(tiles)@.update(j as int, t) =~= old(tiles)@);
        }
        return v;
    }
    let c = collide(b.pos, b.size, t.pos, t.size);
    if c.is_some() {
        let nt = Tile { owner: b.team, ..t };
        proof {
            let s = old(tiles)@;
            lemma_count_update(s, j as int, nt, t.owner);
            lemma_count_update(s, j as int, nt, b.team);
            lemma_count_total(s);
        }
        sb.flip(t.owner, b.team);
        tiles.set(j, nt);
    } else {
        proof {
            assert(old(tiles)@.update(j as int, t) =~= old(tiles)@);
        }
    }
    reflect(v, c)
}


/// Tests ball `b` against every tile and then every wall, claiming the opposing tiles
/// it strikes; returns the ball with its velocity reflected accordingly.
pub fn resolve_ball(tiles: &mut Vec<Tile>, sb: &mut Scoreboard, walls: &Vec<Wall>, b: Ball) -> (r: Ball)
    requires
        counts_match(old(tiles)@, *old(sb)),
        velocity_ok(b.vel),
    ensures
        final(tiles)@ == claim(b, old(tiles)@),
        counts_match(final(tiles)@, *final(sb)),
        r == ball_after(b, old(tiles)@, walls@),
        velocity_ok(r.vel),
{
    let ghost t0 = tiles@;
    let n = tiles.len();
    let mut v = b.vel;
    let mut j: usize = 0;
    while j < n
        invariant
            n == t0.len(),
            0 <= j <= n,
            tiles@.len() == n,
            counts_match(tiles@, *sb),
            forall|k: int| 0 <= k < j ==> tiles@[k] == tile_after(b, #[trigger] t0[k]),
            forall|k: int| j <= k < n ==> tiles@[k] == t0[k],
            v == bounce_tiles(b.vel, b, t0.take(j as int)),
            velocity_ok(v),
        decreases n - j,
    {
        proof {
            assert(t0.take(j as int + 1).drop_last() =~= t0.take(j as int));
        }
        v = hit_tile(tiles, sb, &b, v, j);
        j = j + 1;
    }
    proof {
        assert(t0.take(n as int) =~= t0);
        assert(tiles@ =~= claim(b, t0));
    }
    let ghost vt = v;
    let m = walls.len();
    let mut k: usize = 0;
    while k < m
        invariant
            m == walls@.len(),
            0 <= k <= m,
            v == bounce_walls(vt, b, walls@.take(k as int)),
            velocity_ok(v),
        decreases m - k,
    {
        proof {
            assert(walls@.take(k as int + 1).drop_last() =~= walls@.take(k as int));
        }
        let w = &walls[k];
        v = reflect(v, collide(b.pos, b.size, w.pos, w.size));
        k = k + 1;
    }
    proof {
        assert(walls@.take(m as int) =~= walls@);
    }
    Ball { vel: v, ..b }
}

/// The whole game state: the grid of tiles, the walls around it, the balls and the
/// scoreboard.
#[derive(Debug)]
pub struct Arena {
    pub tile_count: i64,
    pub tiles: Vec<Tile>,
    pub walls: Vec<Wall>,
    pub balls: Vec<Ball>,
    pub scoreboard: Scoreboard,
}

/// Ball `b` after moving for `dt` time units.
pub open spec fn moved(b: Ball, dt: i64) -> Ball {
    Ball {
        pos: Vec2i { x: (b.pos.x + b.vel.x * dt) as i64, y: (b.pos.y + b.vel.y * dt) as i64 },
        ..b
    }
}

/// Ball `b` can move for `dt` time units without leaving the range of coordinates.
pub open spec fn can_move(b: Ball, dt: i64) -> bool {
    &&& i64::MIN <= b.pos.x + b.vel.x * dt <= i64::MAX
    &&& i64::MIN <= b.pos.y + b.vel.y * dt <= i64::MAX
}

/// The product of two `i64` values lies well within the range of `i128`.
proof fn lemma_product_fits(a: i64, b: i64)
    ensures
        -0x4000_0000_0000_0000_0000_0000_0000_0000 <= a * b <= 0x4000_0000_0000_0000_0000_0000_0000_0000,
{
    let x = a as int;
    let y = b as int;
    assert(-0x4000_0000_0000_0000_0000_0000_0000_0000 <= x * y <= 0x4000_0000_0000_0000_0000_0000_0000_0000)
        by (nonlinear_arith)
        requires
            -0x8000_0000_0000_0000 <= x <= 0x7fff_ffff_ffff_ffff,
            -0x8000_0000_0000_0000 <= y <= 0x7fff_ffff_ffff_ffff,
    ;
}

impl Ball {
    /// A ball of `team` centered at `pos`, with full extent `size`, moving at `vel`.
    pub fn new(team: Team, pos: Vec2i, size: Vec2i, vel: Vec2i) -> (r: Ball)
        ensures
            r == (Ball { team, pos, size, vel }),
    {
        Ball { team, pos, size, vel }
    }

    /// Whether the ball can move for `dt` time units without leaving the range of
    /// coordinates.
    pub fn can_move(&self, dt: i64) -> (r: bool)
        ensures
            r == can_move(*self, dt),
    {
        proof {
            lemma_product_fits(self.vel.x, dt);
            lemma_product_fits(self.vel.y, dt);
        }
        let x = self.pos.x as i128 + self.vel.x as i128 * dt as i128;
        let y = self.pos.y as i128 + self.vel.y as i128 * dt as i128;
        i64::MIN as i128 <= x && x <= i64::MAX as i128 && i64::MIN as i128 <= y && y
            <= i64::MAX as i128
    }
}

impl Arena {
    /// The scoreboard agrees with the tiles, the grid is square, and every velocity
    /// can be reflected.
    pub open spec fn wf(self) -> bool {
        &&& self.tile_count >= 0
        &&& self.tiles@.len() == self.tile_count * self.tile_count
        &&& counts_match(self.tiles@, self.scoreboard)
        &&& forall|i: int| 0 <= i < self.balls@.len() ==> velocity_ok(#[trigger] self.balls@[i].vel)
    }

    /// Moves every ball by its velocity for `dt` time units.
    pub fn apply_velocity(&mut self, dt: i64)
        requires
            old(self).wf(),
            forall|i: int| 0 <= i < old(self).balls@.len() ==> can_move(#[trigger] old(self).balls@[i], dt),
        ensures
            final(self).wf(),
            final(self).balls@ == old(self).balls@.map_values(|b: Ball| moved(b, dt)),
            final(self).tiles@ == old(self).tiles@,
            final(self).walls@ == old(self).walls@,
            final(self).scoreboard == old(self).scoreboard,
            final(self).tile_count == old(self).tile_count,
    {
        let ghost b0 = self.balls@;
        let n = self.balls.len();
        let mut i: usize = 0;
        while i < n
            invariant
                n == b0.len(),
                0 <= i <= n,
                self.balls@.len() == n,
                forall|k: int| 0 <= k < n ==> can_move(#[trigger] b0[k], dt),
                forall|k: int| 0 <= k < i ==> self.balls@[k] == moved(#[trigger] b0[k], dt),
                forall|k: int| i <= k < n ==> self.balls@[k] == b0[k],
                self.tiles@ == old(self).tiles@,
                self.walls@ == old(self).walls@,
                self.scoreboard == old(self).scoreboard,
                self.tile_count == old(self).tile_count,
                forall|k: int| 0 <= k < n ==> velocity_ok(#[trigger] b0[k].vel),
            decreases n - i,
        {
            let b = self.balls[i];
            proof {
                assert(can_move(b0[i as int], dt));
                lemma_product_fits(b.vel.x, dt);
                lemma_product_fits(b.vel.y, dt);
            }
            let x = (b.pos.x as i128 + b.vel.x as i128 * dt as i128) as i64;
            let y = (b.pos.y as i128 + b.vel.y as i128 * dt as i128) as i64;
            self.balls.set(i, Ball { pos: Vec2i { x, y }, ..b });
            i = i + 1;
        }
        proof {
            assert(self.balls@ =~= b0.map_values(|b: Ball| moved(b, dt)));
        }
    }

    /// Tests each ball in turn against every tile and then every wall: struck opposing
    /// tiles pass to the ball's team, the scoreboard follows, and the ball's velocity is
    /// reflected off each struck face.
    pub fn handle_collisions(&mut self)
        requires
            old(self).wf(),
        ensures
            final(self).wf(),
            final(self).tiles@ == claim_all(old(self).balls@, old(self).tiles@),
            final(self).balls@.len() == old(self).balls@.len(),
            forall|i: int|
                0 <= i < old(self).balls@.len() ==> #[trigger] final(self).balls@[i] == resolved_ball(
                    old(self).balls@,
                    i,
                    old(self).tiles@,
                    old(self).walls@,
                ),
            forall|i: int|
                0 <= i < old(self).balls@.len() ==> #[trigger] final(self).balls@[i].vel.len_sq()
                    == old(self).balls@[i].vel.len_sq(),
            final(self).walls@ == old(self).walls@,
            final(self).tile_count == old(self).tile_count,
    {
        let ghost b0 = self.balls@;
        let ghost t0 = self.tiles@;
        let n = self.balls.len();
        let mut i: usize = 0;
        while i < n
            invariant
                n == b0.len(),
                0 <= i <= n,
                self.balls@.len() == n,
                self.tiles@ == claim_all(b0.take(i as int), t0),
                self.tiles@.len() == t0.len(),
                counts_match(self.tiles@, self.scoreboard),
                forall|k: int| 0 <= k < n ==> velocity_ok(#[trigger] b0[k].vel),
                forall|k: int| 0 <= k < n ==> velocity_ok(#[trigger] self.balls@[k].vel),
                forall|k: int|
                    0 <= k < i ==> #[trigger] self.balls@[k] == resolved_ball(b0, k, t0, self.walls@),
                forall|k: int|
                    0 <= k < i ==> #[trigger] self.balls@[k].vel.len_sq() == b0[k].vel.len_sq(),
                forall|k: int| i <= k < n ==> self.balls@[k] == b0[k],
                self.walls@ == old(self).walls@,
                self.tile_count == old(self).tile_count,
                t0.len() == self.tile_count * self.tile_count,
            decreases n - i,
        {
            let b = self.balls[i];
            proof {
                assert(b0.take(i as int + 1).drop_last() =~= b0.take(i as int));
                assert(b0.take(i as int + 1).last() == b);
                lemma_resolution_keeps_speed(b, self.tiles@, self.walls@);
            }
            let r = resolve_ball(&mut self.tiles, &mut self.scoreboard, &self.walls, b);
            self.balls.set(i, r);
            i = i + 1;
        }
        proof {
            assert(b0.take(n as int) =~= b0);
        }
    }

    /// Advances the game by `dt` time units: every ball moves, then collisions are
    /// resolved.
    pub fn step(&mut self, dt: i64)
        requires
            old(self).wf(),
            forall|i: int| 0 <= i < old(self).balls@.len() ==> can_move(#[trigger] old(self).balls@[i], dt),
        ensures
            final(self).wf(),
            final(self).tiles@ == claim_all(
                old(self).balls@.map_values(|b: Ball| moved(b, dt)),
                old(self).tiles@,
            ),
            final(self).balls@.len() == old(self).balls@.len(),
            forall|i: int|
                0 <= i < old(self).balls@.len() ==> #[trigger] final(self).balls@[i] == resolved_ball(
                    old(self).balls@.map_values(|b: Ball| moved(b, dt)),
                    i,
                    old(self).tiles@,
                    old(self).walls@,
                ),
            forall|i: int|
                0 <= i < old(self).balls@.len() ==> #[trigger] final(self).balls@[i].vel.len_sq()
                    == old(self).balls@[i].vel.len_sq(),
            final(self).walls@ == old(self).walls@,
            final(self).tile_count == old(self).tile_count,
    {
        self.apply_velocity(dt);
        self.handle_collisions();
    }
}


/// A square grid of `n` by `n` tiles of side `s` that fits the range of coordinates,
/// with an even number of columns and tiles whose centers fall on whole units.
pub open spec fn grid_ok(n: i64, s: i64) -> bool {
    &&& n >= 2
    &&& n % 2 == 0
    &&& s >= 2
    &&& s % 2 == 0
    &&& n * n <= i64::MAX
    &&& n * s <= i64::MAX
}

/// The center, on one axis, of cell `k` of a grid of `n` cells of side `s` centered on 0.
pub open spec fn cell_center(n: int, s: int, k: int) -> int {
    (k - n / 2) * s + s / 2
}

/// Tile `i` of a fresh grid of `n` by `n` tiles of side `s`, laid out column by column:
/// the left half of the columns belongs to team A, the right half to team B.
pub open spec fn grid_tile(n: int, s: int, i: int) -> Tile {
    Tile {
        owner: if i / n < n / 2 {
            Team::A
        } else {
            Team::B
        },
        pos: Vec2i { x: cell_center(n, s, i / n) as i64, y: cell_center(n, s, i % n) as i64 },
        size: Vec2i { x: s as i64, y: s as i64 },
    }
}

/// The four walls around a grid of `n` by `n` tiles of side `s`: left, right, bottom, top.
pub open spec fn grid_walls(n: int, s: int) -> Seq<Wall> {
    let edge = (n / 2) * s + s / 2;
    let len = n * s;
    seq![
        Wall { pos: Vec2i { x: -edge as i64, y: 0 }, size: Vec2i { x: s as i64, y: len as i64 } },
        Wall { pos: Vec2i { x: edge as i64, y: 0 }, size: Vec2i { x: s as i64, y: len as i64 } },
        Wall { pos: Vec2i { x: 0, y: -edge as i64 }, size: Vec2i { x: len as i64, y: s as i64 } },
        Wall { pos: Vec2i { x: 0, y: edge as i64 }, size: Vec2i { x: len as i64, y: s as i64 } },
    ]
}

proof fn lemma_center_bounds(n: int, s: int, k: int)
    requires
        n >= 2,
        n % 2 == 0,
        s >= 2,
        0 <= k < n,
        n * s <= i64::MAX,
    ensures
        -(n * s) <= (k - n / 2) * s <= n * s,
        -(n * s) <= cell_center(n, s, k) <= n * s,
{
    let h = n / 2;
    let d = k - h;
    assert(-(n * s) <= d * s <= n * s && -(n * s) <= d * s + s / 2 <= n * s) by (nonlinear_arith)
        requires
            n == 2 * h,
            -h <= d <= h - 1,
            s >= 2,
            0 <= s / 2 <= s,
    ;
}

/// The center, on one axis, of cell `k`.
fn center_of(n: i64, s: i64, k: i64) -> (r: i64)
    requires
        grid_ok(n, s),
        0 <= k < n,
    ensures
        r == cell_center(n as int, s as int, k as int),
{
    proof {
        lemma_center_bounds(n as int, s as int, k as int);
    }
    (k - n / 2) * s + s / 2
}

impl Arena {
    /// Sets up a game: a grid of `tile_count` by `tile_count` tiles of side `tile_size`
    /// centered on the origin, the left half of the columns owned by team A and the
    /// right half by team B, four walls around it, the given balls, and a scoreboard
    /// that gives each team half of the tiles.
    pub fn new(tile_count: i64, tile_size: i64, balls: Vec<Ball>) -> (r: Arena)
        requires
            grid_ok(tile_count, tile_size),
            forall|i: int| 0 <= i < balls@.len() ==> velocity_ok(#[trigger] balls@[i].vel),
        ensures
            r.wf(),
            r.tile_count == tile_count,
            r.tiles@.len() == tile_count * tile_count,
            forall|i: int|
                0 <= i < r.tiles@.len() ==> #[trigger] r.tiles@[i] == grid_tile(
                    tile_count as int,
                    tile_size as int,
                    i,
                ),
            r.walls@ == grid_walls(tile_count as int, tile_size as int),
            r.balls@ == balls@,
            r.scoreboard.tiles_a == tile_count * tile_count / 2,
            r.scoreboard.tiles_b == tile_count * tile_count / 2,
    {
        let n = tile_count;
        let s = tile_size;
        let ghost h = n / 2;
        let mut tiles: Vec<Tile> = Vec::new();
        let mut x: i64 = 0;
        while x < n
            invariant
                grid_ok(n, s),
                h == n / 2,
                0 <= x <= n,
                tiles@.len() == x * n,
                forall|i: int| 0 <= i < tiles@.len() ==> #[trigger] tiles@[i] == grid_tile(n as int, s as int, i),
                count_owned(tiles@, Team::A) == if x < h { x * n } else { h * n },
                count_owned(tiles@, Team::B) == tiles@.len() - count_owned(tiles@, Team::A),
            decreases n - x,
        {
            let cx = center_of(n, s, x);
            let owner = if x < n / 2 {
                Team::A
            } else {
                Team::B
            };
            let mut y: i64 = 0;
            while y < n
                invariant
                    grid_ok(n, s),
                    h == n / 2,
                    0 <= x < n,
                    0 <= y <= n,
                    cx == cell_center(n as int, s as int, x as int),
                    owner == (if x < h { Team::A } else { Team::B }),
                    tiles@.len() == x * n + y,
                    forall|i: int| 0 <= i < tiles@.len() ==> #[trigger] tiles@[i] == grid_tile(n as int, s as int, i),
                    count_owned(tiles@, Team::A) == if x < h { x * n + y } else { h * n },
                    count_owned(tiles@, Team::B) == tiles@.len() - count_owned(tiles@, Team::A),
                decreases n - y,
            {
                let cy = center_of(n, s, y);
                let t = Tile { owner, pos: Vec2i { x: cx, y: cy }, size: Vec2i { x: s, y: s } };
                proof {
                    let k = x * n + y;
                    vstd::arithmetic::div_mod::lemma_fundamental_div_mod_converse(k, n as int, x as int, y as int);
                    assert(t == grid_tile(n as int, s as int, k));
                    lemma_count_push(tiles@, t, Team::A);
                    lemma_count_push(tiles@, t, Team::B);
                }
                tiles.push(t);
                y = y + 1;
            }
            proof {
                assert((x + 1) * n == x * n + n) by (nonlinear_arith);
            }
            x = x + 1;
        }
        proof {
            assert(0 <= h * s && h * s + s / 2 <= n * s) by (nonlinear_arith)
                requires
                    n == 2 * h,
                    h >= 1,
                    s >= 2,
                    0 <= s / 2 <= s,
            ;
        }
        let half = n / 2 * s + s / 2;
        let len = n * s;
        let mut walls: Vec<Wall> = Vec::new();
        walls.push(Wall { pos: Vec2i { x: -half, y: 0 }, size: Vec2i { x: s, y: len } });
        walls.push(Wall { pos: Vec2i { x: half, y: 0 }, size: Vec2i { x: s, y: len } });
        walls.push(Wall { pos: Vec2i { x: 0, y: -half }, size: Vec2i { x: len, y: s } });
        walls.push(Wall { pos: Vec2i { x: 0, y: half }, size: Vec2i { x: len, y: s } });
        let init_count = n * n / 2;
        proof {
            assert(n * n == 2 * (h * n)) by (nonlinear_arith)
                requires
                    n == 2 * h,
            ;
            assert(walls@ =~= grid_walls(n as int, s as int));
        }
        Arena {
            tile_count: n,
            tiles,
            walls,
            balls,
            scoreboard: Scoreboard { tiles_a: init_count, tiles_b: init_count },
        }
    }
}


/// In every well-formed state, and so in every state that `Arena::new` and
/// `Arena::step` reach, the two counters add up to the number of tiles in the grid.
pub proof fn lemma_scoreboard_total(a: Arena)
    requires
        a.wf(),
    ensures
        a.scoreboard.tiles_a + a.scoreboard.tiles_b == a.tile_count * a.tile_count,
{
    lemma_count_total(a.tiles@);
}

/// A ball passes through the tiles of its own team: such a tile keeps its owner and
/// the ball's velocity is untouched. A tile that does change hands goes from the
/// other team to the ball's team.
pub proof fn lemma_same_team_pass_through(b: Ball, t: Tile, v: Vec2i)
    ensures
        t.owner == b.team ==> tile_after(b, t) == t,
        t.owner == b.team ==> reflect_spec(v, tile_contact(b, t)) == v,
        tile_after(b, t).owner != t.owner ==> t.owner != b.team && tile_after(b, t).owner == b.team,
        tile_after(b, t).pos == t.pos && tile_after(b, t).size == t.size,
{
}

/// A ball lying inside an opposing tile, with no face struck, claims the tile and moves
/// one tile of the scoreboard across, and its velocity is not reflected.
pub proof fn lemma_inside_claims_without_reflecting(tiles: Seq<Tile>, j: int, b: Ball, v: Vec2i)
    requires
        0 <= j < tiles.len(),
        tiles[j].owner != b.team,
        collide_spec(b.pos, b.size, tiles[j].pos, tiles[j].size) == Some(Collision::Inside),
    ensures
        tile_after(b, tiles[j]).owner == b.team,
        count_owned(tiles.update(j, tile_after(b, tiles[j])), b.team) == count_owned(tiles, b.team) + 1,
        count_owned(tiles.update(j, tile_after(b, tiles[j])), tiles[j].owner) == count_owned(
            tiles,
            tiles[j].owner,
        ) - 1,
        reflect_spec(v, tile_contact(b, tiles[j])) == v,
{
    lemma_count_update(tiles, j, tile_after(b, tiles[j]), b.team);
    lemma_count_update(tiles, j, tile_after(b, tiles[j]), tiles[j].owner);
}

/// Balls never act on each other: what the collision pass makes of a ball depends only
/// on that ball, the balls tested before it (through the tiles they claimed), the tiles
/// and the walls; the balls after it play no part.
pub proof fn lemma_later_balls_play_no_part(balls: Seq<Ball>, i: int, tiles: Seq<Tile>, walls: Seq<Wall>)
    requires
        0 <= i < balls.len(),
    ensures
        resolved_ball(balls, i, tiles, walls) == resolved_ball(balls.take(i + 1), i, tiles, walls),
        resolved_ball(balls, 0, tiles, walls) == ball_after(balls[0], tiles, walls),
{
    assert(balls.take(i + 1).take(i) =~= balls.take(i));
    assert(balls.take(0) =~= Seq::<Ball>::empty());
}

} // verus!
