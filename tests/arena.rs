use break_free::arena::{hit_tile, resolve_ball, Arena, Ball, Tile, Wall};
use break_free::geometry::Vec2i;
use break_free::scoreboard::Scoreboard;
use break_free::team::Team;

fn v(x: i64, y: i64) -> Vec2i {
    Vec2i::new(x, y)
}

fn owned(arena: &Arena, team: Team) -> i64 {
    arena.tiles.iter().filter(|t| t.owner == team).count() as i64
}

fn tile_at(arena: &Arena, x: i64, y: i64) -> Tile {
    *arena.tiles.iter().find(|t| t.pos == v(x, y)).unwrap()
}

#[test]
fn new_lays_out_the_grid() {
    let arena = Arena::new(4, 10, vec![]);
    assert_eq!(arena.tile_count, 4);
    assert_eq!(arena.tiles.len(), 16);
    assert_eq!(arena.tiles[0], Tile { owner: Team::A, pos: v(-15, -15), size: v(10, 10) });
    assert_eq!(arena.tiles[1].pos, v(-15, -5));
    assert_eq!(arena.tiles[4].pos, v(-5, -15));
    assert_eq!(arena.tiles[15], Tile { owner: Team::B, pos: v(15, 15), size: v(10, 10) });
    for t in &arena.tiles {
        assert_eq!(t.owner == Team::A, t.pos.x < 0);
    }
    assert_eq!((arena.scoreboard.tiles_a, arena.scoreboard.tiles_b), (8, 8));
    assert_eq!(
        arena.walls,
        vec![
            Wall { pos: v(-25, 0), size: v(10, 40) },
            Wall { pos: v(25, 0), size: v(10, 40) },
            Wall { pos: v(0, -25), size: v(40, 10) },
            Wall { pos: v(0, 25), size: v(40, 10) },
        ]
    );
}

#[test]
fn new_with_default_sized_grid() {
    let arena = Arena::new(20, 25_000, vec![]);
    assert_eq!(arena.tiles.len(), 400);
    assert_eq!((arena.scoreboard.tiles_a, arena.scoreboard.tiles_b), (200, 200));
    assert_eq!(arena.tiles[0].pos, v(-237_500, -237_500));
    assert_eq!(arena.walls[1].pos, v(262_500, 0));
    assert_eq!(owned(&arena, Team::A), 200);
}

#[test]
fn apply_velocity_moves_balls_only() {
    let ball = Ball::new(Team::A, v(-5, 2), v(10, 10), v(50, -3));
    let mut arena = Arena::new(4, 10, vec![ball]);
    let tiles_before = arena.tiles.clone();
    arena.apply_velocity(3);
    assert_eq!(arena.balls[0], Ball::new(Team::A, v(145, -7), v(10, 10), v(50, -3)));
    assert_eq!(arena.tiles, tiles_before);
}

#[test]
fn can_move_detects_overflow() {
    let ball = Ball::new(Team::A, v(i64::MAX - 10, 0), v(1, 1), v(5, 0));
    assert!(ball.can_move(2));
    assert!(!ball.can_move(3));
    assert!(ball.can_move(-1000));
}

// A ball of team A moves from the A half across the column boundary into tiles of team B.
#[test]
fn ball_crossing_into_opposing_tiles_claims_them() {
    // World units of 1/1000, time units of 1 ms: 50 units per second for 0.3 s.
    let ball = Ball::new(Team::A, v(-5_000, 0), v(10_000, 10_000), v(50, 0));
    let mut arena = Arena::new(4, 10_000, vec![ball]);
    arena.step(300);
    let b = arena.balls[0];
    assert_eq!(b.pos, v(10_000, 0));
    // The ball straddles two columns and two rows of team B: each tile passes to A,
    // and each moves one tile across the scoreboard.
    for (x, y) in [(5_000, -5_000), (5_000, 5_000), (15_000, -5_000), (15_000, 5_000)] {
        assert_eq!(tile_at(&arena, x, y).owner, Team::A);
    }
    assert_eq!(tile_at(&arena, 5_000, 15_000).owner, Team::B);
    assert_eq!((arena.scoreboard.tiles_a, arena.scoreboard.tiles_b), (12, 4));
    // It struck the left face of the next column while moving right: x is reflected.
    assert_eq!(b.vel, v(-50, 0));
}

#[test]
fn ball_inside_one_opposing_tile_claims_it_without_bouncing() {
    let ball = Ball::new(Team::A, v(5, 5), v(10, 10), v(7, -3));
    let mut arena = Arena::new(4, 10, vec![ball]);
    arena.handle_collisions();
    assert_eq!(tile_at(&arena, 5, 5).owner, Team::A);
    assert_eq!((arena.scoreboard.tiles_a, arena.scoreboard.tiles_b), (9, 7));
    assert_eq!(arena.balls[0].vel, v(7, -3));
    // Next frame the tile is the ball's own: nothing more changes.
    arena.handle_collisions();
    assert_eq!((arena.scoreboard.tiles_a, arena.scoreboard.tiles_b), (9, 7));
    assert_eq!(arena.balls[0].vel, v(7, -3));
}

#[test]
fn ball_passes_through_own_tiles() {
    let ball = Ball::new(Team::A, v(-10, 0), v(10, 10), v(-4, 9));
    let mut arena = Arena::new(4, 10, vec![ball]);
    let tiles_before = arena.tiles.clone();
    arena.handle_collisions();
    assert_eq!(arena.tiles, tiles_before);
    assert_eq!(arena.balls[0].vel, v(-4, 9));
    assert_eq!((arena.scoreboard.tiles_a, arena.scoreboard.tiles_b), (8, 8));
}

#[test]
fn wall_reflects_perpendicular_axis_only() {
    // Team B ball among team B tiles, reaching into the right wall.
    let ball = Ball::new(Team::B, v(17, 3), v(10, 10), v(30, 7));
    let mut arena = Arena::new(4, 10, vec![ball]);
    arena.handle_collisions();
    assert_eq!(arena.balls[0].vel, v(-30, 7));
    assert_eq!((arena.scoreboard.tiles_a, arena.scoreboard.tiles_b), (8, 8));
    // Into the top wall: y is reflected, x is kept.
    let ball = Ball::new(Team::B, v(7, 17), v(10, 10), v(-6, 11));
    let mut arena = Arena::new(4, 10, vec![ball]);
    arena.handle_collisions();
    assert_eq!(arena.balls[0].vel, v(-6, -11));
}

#[test]
fn ball_moving_away_is_not_reflected_again() {
    let ball = Ball::new(Team::B, v(17, 3), v(10, 10), v(-30, 7));
    let mut arena = Arena::new(4, 10, vec![ball]);
    arena.handle_collisions();
    assert_eq!(arena.balls[0].vel, v(-30, 7));
}

fn two_ball_arena(with_b: bool) -> Arena {
    two_ball_arena_at(with_b, 0)
}

fn two_ball_arena_at(with_b: bool, y: i64) -> Arena {
    let a = Ball::new(Team::A, v(-50_000, y), v(25_000, 25_000), v(743, 297));
    let b = Ball::new(Team::B, v(50_000, -y), v(25_000, 25_000), v(-766, -230));
    let balls = if with_b { vec![a, b] } else { vec![a] };
    Arena::new(20, 25_000, balls)
}

#[test]
fn balls_do_not_interact() {
    // Ball A works the upper half and ball B the lower half, so no tile lies in both paths.
    let mut both = two_ball_arena_at(true, 100_000);
    let mut alone = two_ball_arena_at(false, 100_000);
    for _ in 0..30 {
        both.step(16);
        alone.step(16);
        assert_eq!(both.balls[0], alone.balls[0]);
    }
}

#[test]
fn scoreboard_matches_tiles_over_many_steps() {
    let mut arena = two_ball_arena(true);
    let speed_a = 743 * 743 + 297 * 297;
    let speed_b = 766 * 766 + 230 * 230;
    for _ in 0..2_000 {
        arena.step(16);
        assert_eq!(arena.scoreboard.tiles_a + arena.scoreboard.tiles_b, 400);
        assert_eq!(arena.scoreboard.tiles_a, owned(&arena, Team::A));
        let (a, b) = (arena.balls[0].vel, arena.balls[1].vel);
        assert_eq!(a.x * a.x + a.y * a.y, speed_a);
        assert_eq!(b.x * b.x + b.y * b.y, speed_b);
    }
}

#[test]
fn hit_tile_flips_and_reflects() {
    let mut tiles = vec![Tile { owner: Team::B, pos: v(0, 0), size: v(10, 10) }];
    let mut sb = Scoreboard::new(0, 1);
    let ball = Ball::new(Team::A, v(-8, 0), v(10, 10), v(5, 1));
    let r = hit_tile(&mut tiles, &mut sb, &ball, ball.vel, 0);
    assert_eq!(r, v(-5, 1));
    assert_eq!(tiles[0].owner, Team::A);
    assert_eq!((sb.tiles_a, sb.tiles_b), (1, 0));
}

#[test]
fn resolve_ball_goes_through_tiles_then_walls() {
    let mut tiles = vec![
        Tile { owner: Team::B, pos: v(0, 0), size: v(10, 10) },
        Tile { owner: Team::A, pos: v(0, 10), size: v(10, 10) },
    ];
    let walls = vec![Wall { pos: v(-15, 0), size: v(10, 40) }];
    let mut sb = Scoreboard::new(1, 1);
    // Struck left face of the B tile (x reflected to -5), then the right face of the wall
    // while moving left (x reflected back to 5).
    let ball = Ball::new(Team::A, v(-8, 0), v(10, 10), v(5, 1));
    let r = resolve_ball(&mut tiles, &mut sb, &walls, ball);
    assert_eq!(r.vel, v(5, 1));
    assert_eq!(r.pos, ball.pos);
    assert_eq!(tiles[0].owner, Team::A);
    assert_eq!(tiles[1].owner, Team::A);
    assert_eq!((sb.tiles_a, sb.tiles_b), (2, 0));
}
